use ecs_inspector::registry::{registered_types, Registration, TypeDataKind};

fn reg(name: &str, is_resource: bool, is_asset: bool, id: u32) -> Registration<u32> {
    Registration { short_name: name.to_string(), is_resource, is_asset, type_id: id }
}

fn sample() -> Vec<Registration<u32>> {
    vec![
        reg("Time", true, false, 1),
        reg("Image", false, true, 2),
        reg("ClearColor", true, false, 3),
        reg("Transform", false, false, 4),
        reg("Mesh", false, true, 5),
        reg("AmbientLight", true, false, 6),
    ]
}

#[test]
fn resources_are_listed_by_name() {
    let out = registered_types(sample(), TypeDataKind::Resource);
    let names: Vec<(&str, u32)> = out.iter().map(|n| (n.name.as_str(), n.type_id)).collect();
    assert_eq!(names, vec![("AmbientLight", 6), ("ClearColor", 3), ("Time", 1)]);
}

#[test]
fn assets_are_listed_by_name() {
    let out = registered_types(sample(), TypeDataKind::Asset);
    let names: Vec<(&str, u32)> = out.iter().map(|n| (n.name.as_str(), n.type_id)).collect();
    assert_eq!(names, vec![("Image", 2), ("Mesh", 5)]);
}

#[test]
fn types_without_data_are_not_listed() {
    let out = registered_types(vec![reg("Transform", false, false, 4)], TypeDataKind::Resource);
    assert!(out.is_empty());
}

#[test]
fn same_short_name_keeps_registration_order() {
    let regs = vec![reg("Settings", true, false, 1), reg("Aa", true, false, 2), reg("Settings", true, false, 3)];
    let out = registered_types(regs, TypeDataKind::Resource);
    let ids: Vec<u32> = out.iter().map(|n| n.type_id).collect();
    assert_eq!(ids, vec![2, 1, 3]);
}
