use argusflow_runtime::scheduler::{
    compare_keys, normalize_access, AccessSet, ResourceAccess, ResourceAccessKey, ResourceAccessMode,
};
use argusflow_runtime::text::TextOrder;

#[test]
fn lock_plans_are_ordered_deduplicated_and_upgraded() {
    let access = AccessSet {
        resources: vec![
            ResourceAccess { key: ResourceAccessKey::global("ui.foreground".to_owned()), mode: ResourceAccessMode::Read },
            ResourceAccess { key: ResourceAccessKey::Runtime(7), mode: ResourceAccessMode::Read },
            ResourceAccess { key: ResourceAccessKey::external("app:notepad".to_owned()), mode: ResourceAccessMode::Read },
            ResourceAccess { key: ResourceAccessKey::global("ui.foreground".to_owned()), mode: ResourceAccessMode::Exclusive },
            ResourceAccess { key: ResourceAccessKey::Runtime(3), mode: ResourceAccessMode::Read },
        ],
    };
    let plan = normalize_access(access);
    assert_eq!(plan.len(), 4);
    assert!(matches!(plan[0].key, ResourceAccessKey::Runtime(3)));
    assert!(matches!(plan[1].key, ResourceAccessKey::Runtime(7)));
    assert!(matches!(&plan[2].key, ResourceAccessKey::External(s) if s == "app:notepad"));
    assert!(matches!(&plan[3].key, ResourceAccessKey::Global(s) if s == "ui.foreground"));
    assert_eq!(plan[3].mode, ResourceAccessMode::Exclusive);
    assert_eq!(plan[0].mode, ResourceAccessMode::Read);
}

#[test]
fn single_declarations() {
    let r = AccessSet::read(ResourceAccessKey::Runtime(1));
    assert_eq!(r.resources.len(), 1);
    assert_eq!(r.resources[0].mode, ResourceAccessMode::Read);
    let x = AccessSet::exclusive(ResourceAccessKey::global("system.command".to_owned()));
    assert_eq!(x.resources[0].mode, ResourceAccessMode::Exclusive);
    assert!(normalize_access(AccessSet { resources: vec![] }).is_empty());
}

#[test]
fn key_order_is_kind_identity_then_text() {
    assert_eq!(compare_keys(&ResourceAccessKey::Runtime(9), &ResourceAccessKey::external("a".to_owned())), TextOrder::Less);
    assert_eq!(compare_keys(&ResourceAccessKey::global("a".to_owned()), &ResourceAccessKey::external("z".to_owned())), TextOrder::Greater);
    assert_eq!(compare_keys(&ResourceAccessKey::external("ab".to_owned()), &ResourceAccessKey::external("b".to_owned())), TextOrder::Less);
    assert_eq!(compare_keys(&ResourceAccessKey::external("b".to_owned()), &ResourceAccessKey::external("b".to_owned())), TextOrder::Equal);
    let k = ResourceAccessKey::global("g".to_owned());
    assert!(matches!(k.duplicate(), ResourceAccessKey::Global(s) if s == "g"));
}
