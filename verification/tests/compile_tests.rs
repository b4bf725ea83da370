use argusflow_runtime::compile::{
    check_outline, valid_name, validate_resources, Diagnostic, DiagnosticCode, NodeOutline, ScopeOutline,
    WorkflowOutline,
};

fn node(id: &str, timeout_ms: Option<u64>) -> NodeOutline {
    NodeOutline { id: id.to_owned(), timeout_ms }
}

fn scope(id: &str, nodes: Vec<NodeOutline>) -> ScopeOutline {
    ScopeOutline { id: id.to_owned(), nodes }
}

fn outline(scopes: Vec<ScopeOutline>) -> WorkflowOutline {
    WorkflowOutline { schema_version: 1, name: "Flow".to_owned(), root: "main".to_owned(), scopes }
}

fn failure(r: Result<usize, Diagnostic>) -> (String, Option<String>, Option<String>) {
    let d = r.unwrap_err();
    assert_eq!(d.code, DiagnosticCode::Structure);
    (d.message, d.scope, d.node)
}

#[test]
fn names_are_non_blank_and_at_most_256_bytes() {
    assert!(valid_name("a"));
    assert!(!valid_name(" "));
    assert!(!valid_name(""));
    assert!(valid_name(&"x".repeat(256)));
    assert!(!valid_name(&"x".repeat(257)));
    assert!(valid_name(&"名".repeat(85)));
    assert!(!valid_name(&"名".repeat(86)));
}

#[test]
fn a_clean_outline_yields_its_root() {
    let w = outline(vec![scope("sub", vec![node("a", None)]), scope("main", vec![node("b", Some(1))])]);
    assert_eq!(check_outline(&w).unwrap(), 1);
}

#[test]
fn outline_failures_come_in_document_order() {
    let mut w = outline(vec![scope("main", vec![])]);
    w.schema_version = 2;
    assert_eq!(failure(check_outline(&w)).0, "文档版本必须为 1 且名称非空");
    let mut w = outline(vec![scope("main", vec![])]);
    w.name = "  ".to_owned();
    assert_eq!(failure(check_outline(&w)).0, "文档版本必须为 1 且名称非空");
    assert_eq!(failure(check_outline(&outline(vec![]))).0, "作用域或节点数量超出文档预算");
    let many: Vec<NodeOutline> = (0..10_001).map(|i| node(&format!("n{i}"), None)).collect();
    assert_eq!(failure(check_outline(&outline(vec![scope("main", many)]))).0, "作用域或节点数量超出文档预算");
    let w = outline(vec![scope("main", vec![]), scope("main", vec![])]);
    assert_eq!(failure(check_outline(&w)), ("作用域 ID 为空、过长或重复".to_owned(), None, None));
    let w = outline(vec![scope("main", vec![node("a", None)]), scope("s", vec![node("a", None)])]);
    assert_eq!(
        failure(check_outline(&w)),
        ("节点 ID 为空、过长或重复".to_owned(), Some("s".to_owned()), Some("a".to_owned()))
    );
    let w = outline(vec![scope("main", vec![node("a", Some(0)), node("a", None)])]);
    assert_eq!(
        failure(check_outline(&w)),
        ("节点时限必须在 1..=86400000 毫秒".to_owned(), Some("main".to_owned()), Some("a".to_owned()))
    );
    let w = outline(vec![scope("main", vec![node("a", Some(86_400_001))])]);
    assert_eq!(failure(check_outline(&w)).0, "节点时限必须在 1..=86400000 毫秒");
    let mut w = outline(vec![scope("other", vec![])]);
    w.root = "main".to_owned();
    assert_eq!(failure(check_outline(&w)).0, "根作用域不存在");
}

#[test]
fn resource_ports_need_usable_names_and_types() {
    let ok = vec![("browser".to_owned(), "argus.browser".to_owned())];
    assert!(validate_resources(&ok, "main").is_ok());
    let bad = vec![("browser".to_owned(), " ".to_owned())];
    let d = validate_resources(&bad, "main").unwrap_err();
    assert_eq!(d.code, DiagnosticCode::Resource);
    assert_eq!(d.message, "资源端口数量、名称或类型无效");
    assert_eq!(d.scope.as_deref(), Some("main"));
    let many: Vec<(String, String)> = (0..1025).map(|i| (format!("r{i}"), "t".to_owned())).collect();
    assert!(validate_resources(&many, "main").is_err());
}
