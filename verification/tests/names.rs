use ecs_inspector::entity::{entity_name, guess_entity_name_inner, guess_kind, shows_children, Entity, EntityLookup};
use ecs_inspector::text::decimal_string;

#[test]
fn decimal_of_zero_and_extremes() {
    assert_eq!(decimal_string(0), "0");
    assert_eq!(decimal_string(9), "9");
    assert_eq!(decimal_string(10), "10");
    assert_eq!(decimal_string(42), "42");
    assert_eq!(decimal_string(u32::MAX), "4294967295");
}

#[test]
fn decimal_matches_format() {
    for n in [1u32, 7, 99, 100, 1000, 65535, 123456789] {
        assert_eq!(decimal_string(n), format!("{}", n));
    }
}

#[test]
fn entity_debug_text_is_index_v_generation() {
    assert_eq!(Entity { index: 5, generation: 0 }.debug_text(), "5v0");
    assert_eq!(Entity { index: 7, generation: 3 }.debug_text(), "7v3");
}

#[test]
fn entity_debug_text_matches_bevy() {
    for (index, generation) in [(0u32, 0u32), (5, 0), (7, 3), (123, 45)] {
        let bits = ((generation as u64) << 32) | index as u64;
        let bevy = bevy_ecs::entity::Entity::from_bits(bits);
        assert_eq!(Entity { index, generation }.debug_text(), format!("{:?}", bevy));
    }
}

#[test]
fn distinct_entities_are_written_distinctly() {
    let a = Entity { index: 1, generation: 11 }.debug_text();
    let b = Entity { index: 11, generation: 1 }.debug_text();
    assert_ne!(a, b);
}

#[test]
fn name_of_missing_entity() {
    let e = Entity { index: 12, generation: 1 };
    assert_eq!(entity_name(e, EntityLookup::Missing), "Entity 12 (inexistent)");
}

#[test]
fn name_of_unnamed_entity() {
    let e = Entity { index: 8, generation: 0 };
    assert_eq!(entity_name(e, EntityLookup::Found { name: None, components: vec![] }), "Entity (8)");
}

#[test]
fn name_of_named_entity() {
    let e = Entity { index: 6, generation: 0 };
    let lookup = EntityLookup::Found { name: Some("Sun".to_string()), components: lights() };
    assert_eq!(entity_name(e, lookup), "Sun");
}

#[test]
fn guessed_name_falls_back_to_index() {
    let e = Entity { index: 3, generation: 9 };
    assert_eq!(guess_entity_name_inner(e, None, &vec![]), "Entity (3)");
    assert_eq!(guess_entity_name_inner(e, Some("Camera".to_string()), &vec![]), "Camera");
}

#[test]
fn fallback_names_differ_by_index() {
    let a = guess_entity_name_inner(Entity { index: 1, generation: 0 }, None, &vec![]);
    let b = guess_entity_name_inner(Entity { index: 10, generation: 0 }, None, &vec![]);
    assert_ne!(a, b);
}

fn lights() -> Vec<String> {
    vec!["bevy_transform::components::transform::Transform".to_string(), "bevy_pbr::light::PointLight".to_string()]
}

#[test]
fn unnamed_light_is_named_by_its_kind() {
    let e = Entity { index: 6, generation: 0 };
    let lookup = EntityLookup::Found { name: None, components: lights() };
    assert_eq!(entity_name(e, lookup), "Light (6)");
}

#[test]
fn kinds_are_guessed_by_precedence() {
    let camera_and_light = vec![
        "bevy_render::camera::camera::Camera".to_string(),
        "bevy_pbr::light::DirectionalLight".to_string(),
    ];
    assert_eq!(guess_kind(&camera_and_light), Some("Light"));
    assert_eq!(guess_kind(&vec!["bevy_render::camera::camera::Camera".to_string()]), Some("Camera"));
    assert_eq!(guess_kind(&vec!["bevy_sprite::sprite::Sprite".to_string()]), Some("Sprite"));
    assert_eq!(guess_kind(&vec!["my_game::Player".to_string()]), None);
    let e = Entity { index: 2, generation: 0 };
    assert_eq!(guess_entity_name_inner(e, None, &vec!["bevy_ui::ui_node::Node".to_string()]), "Node (2)");
}

#[test]
fn children_section_only_with_children() {
    assert!(!shows_children(&None));
    assert!(!shows_children(&Some(vec![])));
    assert!(shows_children(&Some(vec![Entity { index: 1, generation: 0 }])));
}
