# argusflow_runtime

The decision core of a workflow runtime, written in Verus: the functions in
`src/` carry contracts that Verus proves, except five small trusted wrappers
around `String::push`, `String::from_utf8_lossy`, `str::to_uppercase` and the
`uuid` crate's text form and parser, whose contracts state what those
functions document.

- `src/` — the verified library: run budgets, run admission and final
  status; While activations; resource-lock normalisation; path traversal
  over multi-scope graphs; execution events (numbering, wording, attribution
  to nested components); lexical checks of structured actions (completion,
  placement of Break/Continue/Return, assignment targets and their temporal
  dead zone, resource declarations and releases); the frame stack of a run
  (entering and leaving scopes, all-or-nothing variable transactions, step
  budgets); task attempts and retries; structured control decisions
  (Try/Catch/Finally); node preparation, validation and execution results;
  the run data plane (inputs, variables, published outputs, JSON Pointer
  reads); command planning and bounded output capture; and the component
  catalogue with the decoding and complete expansion of component instances.
- `tests/` — ordinary tests that run the library with its outside crates.
- `app/` — the host around it: serde decoding, `Display`/`Error` copies of the
  error types, the process host of Command nodes (tokio), the unwind guard of
  node futures, event delivery, the timers between task attempts and the
  loop that drives a path.
