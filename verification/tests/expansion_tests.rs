use argusflow_runtime::component::{
    attribute_event, ComponentDefinition, ComponentOutput, ComponentRegistry, ComponentSourceMap,
};
use argusflow_runtime::expansion::{
    check_instance_version, decode_instance, expand_components, expand_instance, next_component_instance, rewrite_node,
    validate_component_definition, ComponentInstance,
};
use argusflow_runtime::graph::{FlowScope, ScopeBoundary, ScopeParent, WorkflowEdge, WorkflowNode};
use argusflow_runtime::json::JsonValue;

fn text(v: &JsonValue) -> String {
    match v {
        JsonValue::Null => "null".to_owned(),
        JsonValue::Bool(b) => b.to_string(),
        JsonValue::Number(n) => n.clone(),
        JsonValue::String(s) => format!("\"{}\"", s),
        JsonValue::Array(items) => format!("[{}]", items.iter().map(text).collect::<Vec<_>>().join(",")),
        JsonValue::Object(entries) => format!(
            "{{{}}}",
            entries.iter().map(|(k, v)| format!("\"{}\":{}", k, text(v))).collect::<Vec<_>>().join(",")
        ),
    }
}

fn s(v: &str) -> JsonValue {
    JsonValue::String(v.to_owned())
}

fn obj(entries: Vec<(&str, JsonValue)>) -> JsonValue {
    JsonValue::Object(entries.into_iter().map(|(k, v)| (k.to_owned(), v)).collect())
}

fn empty() -> JsonValue {
    JsonValue::Object(vec![])
}

fn node(id: &str, type_id: &str, payload: JsonValue) -> WorkflowNode {
    WorkflowNode { id: id.to_owned(), type_id: type_id.to_owned(), version: 1, payload, output_bindings: empty() }
}

fn edge(id: &str, source: &str, target: &str) -> WorkflowEdge {
    WorkflowEdge { id: id.to_owned(), source: source.to_owned(), target: target.to_owned(), branch: None }
}

fn input_ref(key: &str) -> JsonValue {
    obj(vec![("type", s("ref")), ("source", obj(vec![("type", s("workflow_input")), ("key", s(key))]))])
}

fn node_ref(id: &str) -> JsonValue {
    obj(vec![("type", s("ref")), ("source", obj(vec![("type", s("node")), ("node_id", s(id))])), ("pointer", s(""))])
}

fn literal(v: JsonValue) -> JsonValue {
    obj(vec![("type", s("literal")), ("value", v)])
}

fn component(id: u128) -> ComponentDefinition {
    let root = FlowScope {
        id: "root".to_owned(),
        parent: None,
        boundary: ScopeBoundary::Component { entry_node_id: "s".to_owned(), exit_node_id: "e".to_owned() },
        nodes: vec![
            node("s", "argus.start", empty()),
            node("a", "argus.log", obj(vec![("message", input_ref("msg"))])),
            node("w", "argus.while", empty()),
            node("e", "argus.end", empty()),
        ],
        edges: vec![edge("e1", "s", "a"), edge("e2", "a", "w"), edge("e3", "w", "e")],
    };
    let body = FlowScope {
        id: "body".to_owned(),
        parent: Some(ScopeParent { scope_id: "root".to_owned(), node_id: "w".to_owned() }),
        boundary: ScopeBoundary::Loop {
            entry_node_id: "b0".to_owned(),
            continue_node_id: "b1".to_owned(),
            complete_node_id: "b2".to_owned(),
        },
        nodes: vec![node("b0", "argus.loop_entry", empty()), node("b1", "argus.loop_continue", empty()),
            node("b2", "argus.loop_complete", empty())],
        edges: vec![edge("l1", "b0", "b1")],
    };
    ComponentDefinition {
        id,
        version: "1.0.0".to_owned(),
        schema_version: 2,
        name: "Greeter".to_owned(),
        root_scope_id: "root".to_owned(),
        scopes: vec![root, body],
        inputs: vec!["msg".to_owned()],
        outputs: vec![
            ComponentOutput { name: "zeta".to_owned(), value: literal(s("z")) },
            ComponentOutput { name: "alpha".to_owned(), value: node_ref("a") },
        ],
    }
}

fn instance(id: u128) -> ComponentInstance {
    ComponentInstance {
        component_id: id,
        component_version: "1.0.0".to_owned(),
        inputs: vec![("msg".to_owned(), literal(s("hi")))],
    }
}

fn workflow() -> Vec<FlowScope> {
    let mut inst = node("c1", "argus.component", empty());
    inst.version = 2;
    vec![FlowScope {
        id: "main".to_owned(),
        parent: None,
        boundary: ScopeBoundary::Workflow { entry_node_id: "w0".to_owned() },
        nodes: vec![node("w0", "argus.start", empty()), inst, node("w9", "argus.end", empty())],
        edges: vec![edge("m1", "w0", "c1"), edge("m2", "c1", "w9")],
    }]
}

fn ids(nodes: &[WorkflowNode]) -> Vec<String> {
    nodes.iter().map(|n| n.id.clone()).collect()
}

fn edge_text(edges: &[WorkflowEdge]) -> Vec<String> {
    edges.iter().map(|e| format!("{}:{}->{}", e.id, e.source, e.target)).collect()
}

#[test]
fn an_instance_is_spliced_in_behind_its_output_proxy() {
    let registry = ComponentRegistry::from_definitions(vec![component(7)]).unwrap();
    let mut scopes = workflow();
    let mut sources = ComponentSourceMap::new();
    assert_eq!(next_component_instance(&scopes), Some((0, 1)));
    expand_instance(&mut scopes, 0, 1, &instance(7), &registry, &mut sources).unwrap();
    assert_eq!(next_component_instance(&scopes), None);
    assert_eq!(scopes.len(), 2);
    let main = &scopes[0];
    assert_eq!(ids(&main.nodes), vec!["w0", "w9", "c1::a", "c1::w", "c1"]);
    assert_eq!(
        edge_text(&main.edges),
        vec!["m1:w0->c1::a", "m2:c1->w9", "c1::e2:c1::a->c1::w", "c1::e3:c1::w->c1"]
    );
    assert_eq!(text(&main.nodes[2].payload), "{\"message\":{\"type\":\"literal\",\"value\":\"hi\"}}");
    let proxy = &main.nodes[4];
    assert_eq!(proxy.type_id, "argus.component.output");
    assert_eq!(proxy.version, 1);
    assert_eq!(
        text(&proxy.payload),
        "{\"outputs\":{\"alpha\":{\"type\":\"ref\",\"source\":{\"type\":\"node\",\"node_id\":\"c1::a\"},\"pointer\":\"\"},\
         \"zeta\":{\"type\":\"literal\",\"value\":\"z\"}}}"
    );
    let body = &scopes[1];
    assert_eq!(body.id, "c1::body");
    let parent = body.parent.as_ref().unwrap();
    assert_eq!(parent.scope_id, "main");
    assert_eq!(parent.node_id, "c1::w");
    assert_eq!(ids(&body.nodes), vec!["c1::b0", "c1::b1", "c1::b2"]);
    assert_eq!(edge_text(&body.edges), vec!["c1::l1:c1::b0->c1::b1"]);
    match &body.boundary {
        ScopeBoundary::Loop { entry_node_id, continue_node_id, complete_node_id } => {
            assert_eq!(entry_node_id, "c1::b0");
            assert_eq!(continue_node_id, "c1::b1");
            assert_eq!(complete_node_id, "c1::b2");
        }
        _ => panic!("loop boundary expected"),
    }
    let path = sources.get("c1::a").unwrap();
    assert_eq!(path.len(), 1);
    assert_eq!(path[0].instance_node_id, "c1");
    assert_eq!(path[0].component_id, 7);
    assert_eq!(path[0].inner_node_id, "a");
    assert_eq!(sources.get("c1").unwrap()[0].inner_node_id, "e");
    assert_eq!(sources.get("c1::b2").unwrap()[0].inner_node_id, "b2");
    assert!(sources.get("c1::s").is_none());
}

#[test]
fn a_missing_locked_version_names_the_uuid() {
    let registry = ComponentRegistry::new();
    let mut scopes = workflow();
    let mut sources = ComponentSourceMap::new();
    let id = 0x0123456789abcdef0123456789abcdefu128;
    let e = expand_instance(&mut scopes, 0, 1, &instance(id), &registry, &mut sources).unwrap_err();
    assert_eq!(e.node_id.as_deref(), Some("c1"));
    assert_eq!(e.message, "找不到锁定组件版本 '01234567-89ab-cdef-0123-456789abcdef@1.0.0'");
    assert_eq!(ids(&scopes[0].nodes), vec!["w0", "c1", "w9"]);
}

#[test]
fn nested_instances_of_the_same_component_are_refused() {
    let registry = ComponentRegistry::from_definitions(vec![component(7)]).unwrap();
    let mut scopes = workflow();
    let mut sources = ComponentSourceMap::new();
    expand_instance(&mut scopes, 0, 1, &instance(7), &registry, &mut sources).unwrap();
    let mut inner = node("c1::a", "argus.component", empty());
    inner.version = 2;
    scopes[0].nodes[2] = inner;
    let e = expand_instance(&mut scopes, 0, 2, &instance(7), &registry, &mut sources).unwrap_err();
    assert_eq!(e.message, "组件不能直接或间接递归引用自身");
}

#[test]
fn the_entry_must_have_exactly_one_edge() {
    let mut definition = component(7);
    definition.scopes[0].edges.push(edge("e4", "s", "w"));
    let registry = ComponentRegistry::from_definitions(vec![definition]).unwrap();
    let mut scopes = workflow();
    let mut sources = ComponentSourceMap::new();
    let e = expand_instance(&mut scopes, 0, 1, &instance(7), &registry, &mut sources).unwrap_err();
    assert_eq!(e.message, "组件入口必须且只能有一条出边");
    assert_eq!(scopes.len(), 1);
    assert!(sources.get("c1::a").is_none());
}

#[test]
fn unbound_inputs_fail_the_definition_check() {
    let definition = component(7);
    let mut inst = instance(7);
    inst.inputs.clear();
    let e = validate_component_definition("c1", &definition, &inst).unwrap_err();
    assert_eq!(e.message, "组件实例必须且只能绑定定义声明的全部输入");
    let (root, entry, exit) = validate_component_definition("c1", &definition, &instance(7)).unwrap();
    assert_eq!((root, entry.as_str(), exit.as_str()), (0, "s", "e"));
    let mut wrong = component(7);
    wrong.schema_version = 1;
    assert_eq!(validate_component_definition("c1", &wrong, &instance(7)).unwrap_err().message, "组合步骤的格式版本必须为 2");
}

#[test]
fn instance_settings_must_be_version_two() {
    assert!(check_instance_version(&node("c", "argus.component", empty())).is_err());
    let mut ok = node("c", "argus.component", empty());
    ok.version = 2;
    assert!(check_instance_version(&ok).is_ok());
}

#[test]
fn nodes_are_rewritten_for_their_expanded_id() {
    let n = node("a", "argus.log", obj(vec![("producer_node_id", s("x")), ("message", input_ref("msg"))]));
    let inputs = vec![("msg".to_owned(), literal(s("hi")))];
    let map = vec![("x".to_owned(), "i::x".to_owned())];
    let out = rewrite_node(&n, "i::a", &inputs, &map).unwrap();
    assert_eq!(out.id, "i::a");
    assert_eq!(out.type_id, "argus.log");
    assert_eq!(text(&out.payload), "{\"producer_node_id\":\"i::x\",\"message\":{\"type\":\"literal\",\"value\":\"hi\"}}");
    let e = rewrite_node(&node("a", "t", input_ref("missing")), "i::a", &inputs, &map).unwrap_err();
    assert!(e.node_id.is_none());
    assert_eq!(e.message, "组件输入 'missing' 没有实例绑定");
}

fn outer_component(id: u128) -> ComponentDefinition {
    let mut inner = node("ci", "argus.component", obj(vec![
        ("component_id", s("00000000-0000-0000-0000-000000000007")),
        ("component_version", s("1.0.0")),
    ]));
    inner.version = 2;
    let root = FlowScope {
        id: "root".to_owned(),
        parent: None,
        boundary: ScopeBoundary::Component { entry_node_id: "s".to_owned(), exit_node_id: "e".to_owned() },
        nodes: vec![node("s", "argus.start", empty()), inner, node("e", "argus.end", empty())],
        edges: vec![edge("o1", "s", "ci"), edge("o2", "ci", "e")],
    };
    ComponentDefinition {
        id,
        version: "1.0.0".to_owned(),
        schema_version: 2,
        name: "Outer".to_owned(),
        root_scope_id: "root".to_owned(),
        scopes: vec![root],
        inputs: vec![],
        outputs: vec![],
    }
}

#[test]
fn nested_instances_record_the_whole_component_path() {
    let registry = ComponentRegistry::from_definitions(vec![component(7), outer_component(8)]).unwrap();
    let mut scopes = workflow();
    let mut sources = ComponentSourceMap::new();
    let outer = ComponentInstance { component_id: 8, component_version: "1.0.0".to_owned(), inputs: vec![] };
    expand_instance(&mut scopes, 0, 1, &outer, &registry, &mut sources).unwrap();
    assert_eq!(ids(&scopes[0].nodes), vec!["w0", "w9", "c1::ci", "c1"]);
    assert_eq!(next_component_instance(&scopes), Some((0, 2)));
    expand_instance(&mut scopes, 0, 2, &instance(7), &registry, &mut sources).unwrap();
    let path = sources.get("c1::ci::a").unwrap();
    assert_eq!(path.len(), 2);
    assert_eq!((path[0].instance_node_id.as_str(), path[0].component_id, path[0].inner_node_id.as_str()), ("c1", 8, "ci"));
    assert_eq!((path[1].instance_node_id.as_str(), path[1].component_id, path[1].inner_node_id.as_str()), ("c1::ci", 7, "a"));
    assert_eq!(scopes[1].id, "c1::ci::body");
    assert_eq!(next_component_instance(&scopes), None);
    let shown = attribute_event(Some("c1::ci::a"), &sources);
    assert_eq!(shown.node_id.as_deref(), Some("c1"));
    assert_eq!(shown.expanded_node_id.as_deref(), Some("c1::ci::a"));
    assert_eq!(shown.component_path.len(), 2);
    let plain = attribute_event(Some("w0"), &sources);
    assert_eq!(plain.node_id.as_deref(), Some("w0"));
    assert!(plain.expanded_node_id.is_none());
    assert!(plain.component_path.is_empty());
    assert!(attribute_event(None, &sources).node_id.is_none());
}

#[test]
fn instance_settings_are_decoded_from_the_payload() {
    let mut n = node("c1", "argus.component", obj(vec![
        ("component_id", s("00000000-0000-0000-0000-000000000007")),
        ("component_version", s("1.0.0")),
        ("inputs", obj(vec![("msg", literal(s("hi")))])),
    ]));
    n.version = 2;
    let i = decode_instance(&n).unwrap();
    assert_eq!(i.component_id, 7);
    assert_eq!(i.component_version, "1.0.0");
    assert_eq!(i.inputs.len(), 1);
    assert_eq!(i.inputs[0].0, "msg");
    let mut bad = node("c1", "argus.component", obj(vec![("component_id", s("nope")), ("component_version", s("1.0.0"))]));
    bad.version = 2;
    let e = decode_instance(&bad).unwrap_err();
    assert_eq!(e.node_id.as_deref(), Some("c1"));
    assert_eq!(e.message, "组合步骤的设置格式不正确：component_id 不是 UUID");
    let old = node("c1", "argus.component", empty());
    assert_eq!(decode_instance(&old).unwrap_err().message, "组合步骤的设置版本必须为 2");
    let mut missing = node("c1", "argus.component", empty());
    missing.version = 2;
    assert_eq!(decode_instance(&missing).unwrap_err().message, "组合步骤的设置格式不正确：缺少文本字段 component_id");
}

#[test]
fn whole_workflows_are_expanded_until_no_instance_is_left() {
    let mut scopes = workflow();
    scopes[0].nodes[1].payload = obj(vec![
        ("component_id", s("00000000-0000-0000-0000-000000000008")),
        ("component_version", s("1.0.0")),
    ]);
    let inner_inputs = obj(vec![
        ("component_id", s("00000000-0000-0000-0000-000000000007")),
        ("component_version", s("1.0.0")),
        ("inputs", obj(vec![("msg", literal(s("hi")))])),
    ]);
    let mut outer = outer_component(8);
    outer.scopes[0].nodes[1].payload = inner_inputs;
    let registry = ComponentRegistry::from_definitions(vec![component(7), outer]).unwrap();
    let (out, sources) = expand_components(scopes, &registry).unwrap();
    assert_eq!(next_component_instance(&out), None);
    assert_eq!(ids(&out[0].nodes), vec!["w0", "w9", "c1", "c1::ci::a", "c1::ci::w", "c1::ci"]);
    assert_eq!(sources.get("c1::ci::a").unwrap().len(), 2);
}
