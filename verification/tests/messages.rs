use ecs_inspector::entity::Entity;
use ecs_inspector::messages::{
    error_message_dead_asset_handle, error_message_entity_does_not_exist, error_message_no_reflect_from_ptr,
    error_message_no_type_id, error_message_no_world_in_context, TextSegment, TextStyle,
};

fn flat(m: &[TextSegment]) -> Vec<(TextStyle, &str)> {
    m.iter().map(|s| (s.style, s.text.as_str())).collect()
}

#[test]
fn message_no_type_id() {
    let m = error_message_no_type_id("MyComponent");
    assert_eq!(
        flat(&m),
        vec![
            (TextStyle::Monospace, "MyComponent"),
            (TextStyle::Proportional, " is not backed by a rust type, so it cannot be displayed."),
        ]
    );
}

#[test]
fn message_no_reflect_from_ptr() {
    let m = error_message_no_reflect_from_ptr("Foo");
    assert_eq!(
        flat(&m),
        vec![
            (TextStyle::Monospace, "Foo"),
            (TextStyle::Proportional, " has no "),
            (TextStyle::Monospace, "ReflectFromPtr"),
            (TextStyle::Proportional, " type data, so it cannot be displayed"),
        ]
    );
}

#[test]
fn message_entity_does_not_exist() {
    let m = error_message_entity_does_not_exist(Entity { index: 4, generation: 2 });
    assert_eq!(
        flat(&m),
        vec![
            (TextStyle::Proportional, "Entity "),
            (TextStyle::Monospace, "4v2"),
            (TextStyle::Proportional, " does not exist."),
        ]
    );
}

#[test]
fn message_no_world_in_context() {
    let m = error_message_no_world_in_context("Handle<Image>");
    assert_eq!(
        flat(&m),
        vec![
            (TextStyle::Monospace, "Handle<Image>"),
            (TextStyle::Proportional, " needs the bevy world in the "),
            (TextStyle::Monospace, "InspectorUi"),
            (TextStyle::Proportional, " context to provide meaningful information."),
        ]
    );
}

#[test]
fn message_dead_asset_handle() {
    let m = error_message_dead_asset_handle("Id(1, 2)");
    assert_eq!(
        flat(&m),
        vec![
            (TextStyle::Proportional, "Handle "),
            (TextStyle::Monospace, "Id(1, 2)"),
            (TextStyle::Proportional, " points to no asset."),
        ]
    );
}
