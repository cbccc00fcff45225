use ecs_inspector::components::{
    component_display, components_of_entity, pretty_name_is_defined, ComponentDisplay, ComponentEntry,
};

fn entry(name: &str, id: usize, type_id: Option<u8>, size: usize) -> ComponentEntry<usize, u8> {
    ComponentEntry { name: name.to_string(), component_id: id, type_id, size }
}

#[test]
fn components_get_pretty_names_in_order() {
    let raw = vec![
        entry("alloc::vec::Vec<my_game::Thing>", 0, Some(1), 24),
        entry("core::option::Option<my_game::Bar>", 1, Some(2), 8),
        entry("my_game::Zed", 2, None, 4),
        entry("bevy_transform::components::transform::Transform", 3, Some(3), 40),
    ];
    let out = components_of_entity(raw);
    let rows: Vec<(&str, usize, Option<u8>, usize)> =
        out.iter().map(|c| (c.name.as_str(), c.component_id, c.type_id, c.size)).collect();
    assert_eq!(
        rows,
        vec![
            ("Option<Bar>", 1, Some(2), 8),
            ("Transform", 3, Some(3), 40),
            ("Vec<Thing>", 0, Some(1), 24),
            ("Zed", 2, None, 4),
        ]
    );
}

#[test]
fn pretty_names_match_the_outside_crate() {
    let names = ["a::b::C<d::E, f::G>", "[a::B; 3]", "(a::B, c::D)", "x::y::{{closure}}", "plain"];
    let raw: Vec<ComponentEntry<usize, u8>> = names.iter().enumerate().map(|(i, n)| entry(n, i, None, 1)).collect();
    let out = components_of_entity(raw);
    for c in &out {
        assert_eq!(c.name, pretty_type_name::pretty_type_name_str(names[c.component_id]));
    }
}

#[test]
fn equal_pretty_names_keep_their_order() {
    let raw = vec![entry("a::Same", 0, None, 1), entry("b::Same", 1, None, 1), entry("c::Other", 2, None, 1)];
    let ids: Vec<usize> = components_of_entity(raw).iter().map(|c| c.component_id).collect();
    assert_eq!(ids, vec![2, 0, 1]);
}

#[test]
fn names_that_the_shortener_accepts() {
    assert!(pretty_name_is_defined("std::collections::HashMap<u8, alloc::string::String>"));
    assert!(pretty_name_is_defined("[u8; 4]"));
    assert!(pretty_name_is_defined("my::f::{{closure}}"));
    assert!(pretty_name_is_defined("my::f::{{closure}}::{{closure}}"));
    assert!(pretty_name_is_defined(""));
    assert!(pretty_name_is_defined("a,x"));
}

#[test]
fn names_that_the_shortener_rejects() {
    assert!(!pretty_name_is_defined("a,"));
    assert!(!pretty_name_is_defined("a;"));
    assert!(!pretty_name_is_defined("a,é"));
    assert!(!pretty_name_is_defined("a,::{{closure}}"));
}

#[test]
fn what_is_shown_of_a_component() {
    assert_eq!(component_display(0, false, false), ComponentDisplay::Nothing);
    assert_eq!(component_display(0, true, true), ComponentDisplay::Nothing);
    assert_eq!(component_display(4, false, true), ComponentDisplay::NoTypeId);
    assert_eq!(component_display(4, true, false), ComponentDisplay::NoReflectFromPtr);
    assert_eq!(component_display(4, true, true), ComponentDisplay::Value);
}
