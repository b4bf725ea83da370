use argusflow_runtime::errors::RuntimeError;
use argusflow_runtime::json::JsonValue;
use argusflow_runtime::nodes::{format_delimited, DelimitedTextFormat};

fn op(fields: &[&str], header: bool) -> DelimitedTextFormat {
    DelimitedTextFormat {
        items: argusflow_runtime::context::ValueExpr::Literal { value: JsonValue::Null },
        fields: fields.iter().map(|s| s.to_string()).collect(),
        column_separator: ",".to_owned(),
        row_separator: "\n".to_owned(),
        include_header: header,
    }
}

fn object(entries: Vec<(&str, JsonValue)>) -> JsonValue {
    JsonValue::Object(entries.into_iter().map(|(k, v)| (k.to_owned(), v)).collect())
}

fn mismatch(r: Result<String, RuntimeError>) -> (String, String) {
    match r {
        Err(RuntimeError::ValueTypeMismatch { expected, actual }) => (expected, actual),
        other => panic!("unexpected {:?}", other),
    }
}

#[test]
fn rows_follow_field_order_and_end_with_the_separator() {
    let items = JsonValue::Array(vec![
        object(vec![("b", JsonValue::String("x".to_owned())), ("a", JsonValue::Number("1".to_owned()))]),
        object(vec![("a", JsonValue::Null), ("c", JsonValue::Bool(true))]),
    ]);
    assert_eq!(format_delimited(&op(&["a", "b"], true), &items).unwrap(), "a,b\n1,x\n,\n");
    assert_eq!(format_delimited(&op(&["a", "b"], false), &items).unwrap(), "1,x\n,\n");
    assert_eq!(format_delimited(&op(&["c"], false), &items).unwrap(), "\ntrue\n");
}

#[test]
fn empty_input_gives_empty_text_or_only_the_header() {
    let empty = JsonValue::Array(vec![]);
    assert_eq!(format_delimited(&op(&["a"], false), &empty).unwrap(), "");
    assert_eq!(format_delimited(&op(&["a", "b"], true), &empty).unwrap(), "a,b\n");
}

#[test]
fn non_scalar_values_are_type_mismatches() {
    assert_eq!(mismatch(format_delimited(&op(&["a"], true), &JsonValue::Null)), ("array".to_owned(), "null".to_owned()));
    let items = JsonValue::Array(vec![JsonValue::Number("1".to_owned())]);
    assert_eq!(mismatch(format_delimited(&op(&["a"], true), &items)), ("object".to_owned(), "number".to_owned()));
    let items = JsonValue::Array(vec![object(vec![("a", JsonValue::Array(vec![])), ("b", JsonValue::Object(vec![]))])]);
    assert_eq!(mismatch(format_delimited(&op(&["b", "a"], true), &items)), ("scalar".to_owned(), "object".to_owned()));
}
