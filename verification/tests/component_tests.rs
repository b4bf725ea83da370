use argusflow_runtime::component::{
    boundary_target, check_admission, is_exact_version, mapped, namespace, record_source, rewrite_boundary,
    rewrite_root_edges, validate_component_ports, ComponentDefinition, ComponentExpansionError, ComponentRegistry,
    ComponentRegistryError, ComponentSourceFrame, ComponentSourceMap,
};
use argusflow_runtime::graph::{ScopeBoundary, WorkflowEdge};
use argusflow_runtime::report::{component_validation_report, ValidationIssueCode};

fn definition(id: u128, version: &str) -> ComponentDefinition {
    ComponentDefinition {
        id,
        version: version.to_owned(),
        schema_version: 2,
        name: "Component".to_owned(),
        root_scope_id: "root".to_owned(),
        scopes: vec![],
        inputs: vec![],
        outputs: vec![],
    }
}

fn strings(items: &[&str]) -> Vec<String> {
    items.iter().map(|s| s.to_string()).collect()
}

fn edge(id: &str, source: &str, target: &str) -> WorkflowEdge {
    WorkflowEdge { id: id.to_owned(), source: source.to_owned(), target: target.to_owned(), branch: None }
}

#[test]
fn exact_versions_only() {
    assert!(is_exact_version("1.2.3"));
    assert!(is_exact_version("10.0.255"));
    assert!(!is_exact_version("1.2"));
    assert!(!is_exact_version("1.2.3.4"));
    assert!(!is_exact_version("^1.2.3"));
    assert!(!is_exact_version("1..3"));
    assert!(!is_exact_version(".1.2"));
    assert!(!is_exact_version("1.2."));
    assert!(!is_exact_version("1.2.3-beta"));
    assert!(!is_exact_version("latest"));
    assert!(!is_exact_version(""));
}

#[test]
fn registry_resolves_exact_versions() {
    let mut registry = ComponentRegistry::new();
    assert!(registry.register(definition(1, "1.0.0")).is_ok());
    assert!(registry.register(definition(1, "1.1.0")).is_ok());
    assert_eq!(registry.resolve(1, "1.1.0").unwrap().version, "1.1.0");
    assert!(registry.resolve(1, "1.2.0").is_none());
    assert!(registry.resolve(2, "1.0.0").is_none());
    match registry.register(definition(1, "1.0.0")) {
        Err(ComponentRegistryError::DuplicateDefinition { component_id, version }) => {
            assert_eq!(component_id, 1);
            assert_eq!(version, "1.0.0");
        }
        other => panic!("unexpected {:?}", other),
    }
    match registry.register(definition(3, "1.0")) {
        Err(ComponentRegistryError::InvalidVersion { version }) => assert_eq!(version, "1.0"),
        other => panic!("unexpected {:?}", other),
    }
}

#[test]
fn registry_from_definitions_refuses_duplicates() {
    assert!(ComponentRegistry::from_definitions(vec![definition(1, "1.0.0"), definition(2, "1.0.0")]).is_ok());
    assert!(matches!(
        ComponentRegistry::from_definitions(vec![definition(1, "1.0.0"), definition(1, "1.0.0")]),
        Err(ComponentRegistryError::DuplicateDefinition { .. })
    ));
    assert!(matches!(
        ComponentRegistry::from_definitions(vec![definition(1, "x")]),
        Err(ComponentRegistryError::InvalidVersion { .. })
    ));
}

#[test]
fn ids_are_namespaced_under_the_instance() {
    assert_eq!(namespace("inst", "node"), "inst::node");
    let map = vec![("a".to_owned(), "inst::a".to_owned()), ("a".to_owned(), "inst::a2".to_owned())];
    assert_eq!(mapped(&map, "a", "inst").unwrap(), "inst::a2");
    let e = mapped(&map, "zz", "inst").unwrap_err();
    assert_eq!(e.node_id.as_deref(), Some("inst"));
    assert_eq!(e.message, "组件结构引用未知 ID 'zz'");
    let e = ComponentExpansionError::at("n", "m".to_owned());
    assert_eq!((e.node_id.as_deref(), e.message.as_str()), (Some("n"), "m"));
}

#[test]
fn exit_edges_go_to_the_output_proxy() {
    let map = vec![("x".to_owned(), "inst::x".to_owned())];
    assert_eq!(boundary_target(&edge("e", "x", "exit"), "exit", &map, "inst").unwrap(), "inst");
    assert_eq!(boundary_target(&edge("e", "exit", "x"), "exit", &map, "inst").unwrap(), "inst::x");
    assert!(boundary_target(&edge("e", "x", "y"), "exit", &map, "inst").is_err());
}

#[test]
fn root_edges_are_rewritten_except_the_entry_edge() {
    let map = vec![("a".to_owned(), "inst::a".to_owned()), ("b".to_owned(), "inst::b".to_owned())];
    let edges = vec![edge("e0", "entry", "a"), edge("e1", "a", "b"), edge("e2", "b", "exit")];
    let out = rewrite_root_edges(&edges, "entry", "exit", "inst", &map).unwrap();
    assert_eq!(out.len(), 2);
    assert_eq!((out[0].id.as_str(), out[0].source.as_str(), out[0].target.as_str()), ("inst::e1", "inst::a", "inst::b"));
    assert_eq!((out[1].id.as_str(), out[1].source.as_str(), out[1].target.as_str()), ("inst::e2", "inst::b", "inst"));
    let bad = vec![edge("e3", "a", "entry")];
    assert_eq!(rewrite_root_edges(&bad, "entry", "exit", "inst", &map).unwrap_err().message, "组件边不能进入入口或离开出口");
}

#[test]
fn child_boundaries_are_mapped() {
    let map = vec![
        ("e".to_owned(), "i::e".to_owned()),
        ("c".to_owned(), "i::c".to_owned()),
        ("d".to_owned(), "i::d".to_owned()),
    ];
    let b = ScopeBoundary::Loop { entry_node_id: "e".to_owned(), continue_node_id: "c".to_owned(), complete_node_id: "d".to_owned() };
    match rewrite_boundary(&b, &map, "i").unwrap() {
        ScopeBoundary::Loop { entry_node_id, continue_node_id, complete_node_id } => {
            assert_eq!((entry_node_id.as_str(), continue_node_id.as_str(), complete_node_id.as_str()), ("i::e", "i::c", "i::d"));
        }
        _ => panic!("boundary kind changed"),
    }
    let missing = ScopeBoundary::Workflow { entry_node_id: "zz".to_owned() };
    assert!(rewrite_boundary(&missing, &map, "i").is_err());
}

#[test]
fn nesting_is_bounded_and_not_recursive() {
    let frame = |id: u128| ComponentSourceFrame {
        instance_node_id: "i".to_owned(),
        component_id: id,
        component_version: "1.0.0".to_owned(),
        inner_node_id: "n".to_owned(),
    };
    assert!(check_admission(&vec![frame(1)], 2, "inst").is_ok());
    assert_eq!(check_admission(&vec![frame(1), frame(2)], 2, "inst").unwrap_err().message, "组件不能直接或间接递归引用自身");
    let deep: Vec<ComponentSourceFrame> = (0..8).map(|k| frame(100 + k)).collect();
    assert_eq!(check_admission(&deep, 2, "inst").unwrap_err().message, "组件嵌套深度不能超过 8");
}

#[test]
fn sources_record_the_full_path() {
    let mut map = ComponentSourceMap::new();
    let outer = vec![ComponentSourceFrame {
        instance_node_id: "outer".to_owned(),
        component_id: 1,
        component_version: "1.0.0".to_owned(),
        inner_node_id: "inner-inst".to_owned(),
    }];
    record_source(&mut map, "outer::inner::n", &outer, "outer::inner", 2, "2.0.0", "n");
    let path = map.get("outer::inner::n").unwrap();
    assert_eq!(path.len(), 2);
    assert_eq!(path[0].instance_node_id, "outer");
    assert_eq!(path[1].component_id, 2);
    assert_eq!(path[1].inner_node_id, "n");
    assert!(map.get("other").is_none());
    record_source(&mut map, "outer::inner::n", &vec![], "x", 3, "3.0.0", "m");
    assert_eq!(map.get("outer::inner::n").unwrap().len(), 1);
}

#[test]
fn ports_must_match_the_declaration() {
    let declared = strings(&["a", "b"]);
    assert!(validate_component_ports("i", &declared, &strings(&["b", "a"]), &strings(&["out"])).is_ok());
    let e = validate_component_ports("i", &declared, &strings(&["a"]), &strings(&[])).unwrap_err();
    assert_eq!(e.message, "组件实例必须且只能绑定定义声明的全部输入");
    let e = validate_component_ports("i", &declared, &strings(&["a", "b", "c"]), &strings(&[])).unwrap_err();
    assert_eq!(e.message, "组件实例必须且只能绑定定义声明的全部输入");
    let e = validate_component_ports("i", &strings(&["a", "a"]), &strings(&["a"]), &strings(&[])).unwrap_err();
    assert_eq!(e.message, "组件实例必须且只能绑定定义声明的全部输入");
    let e = validate_component_ports("i", &declared, &declared, &strings(&["x", "x"])).unwrap_err();
    assert_eq!(e.message, "组件输出名称必须非空且唯一");
    let e = validate_component_ports("i", &declared, &declared, &strings(&[" "])).unwrap_err();
    assert_eq!(e.message, "组件输出名称必须非空且唯一");
    assert_eq!(e.node_id.as_deref(), Some("i"));
}

#[test]
fn expansion_failures_become_one_finding() {
    let r = component_validation_report("boom".to_owned(), Some("n1".to_owned()));
    assert!(!r.valid);
    assert_eq!(r.issues.len(), 1);
    assert_eq!(r.issues[0].code, ValidationIssueCode::ComponentExpansionFailed);
    assert_eq!(r.issues[0].message, "boom");
    assert_eq!(r.issues[0].node_id.as_deref(), Some("n1"));
}
