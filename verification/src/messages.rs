//! The texts the inspector shows in place of a value it cannot display.
//! A message is a sequence of segments, each in monospace (names of types,
//! entities and handles) or in the proportional body font.

use vstd::prelude::*;
use crate::entity::{Entity, entity_debug_text};

verus! {

/// The font of a segment.
#[derive(Clone, Copy, PartialEq, Eq, Structural, Debug)]
pub enum TextStyle {
    Monospace,
    Proportional,
}

/// A piece of a message in one font.
pub struct TextSegment {
    pub style: TextStyle,
    pub text: String,
}

/// The segments of a message, each as its font and its characters.
pub open spec fn segments_view(s: Seq<TextSegment>) -> Seq<(TextStyle, Seq<char>)> {
    s.map_values(|t: TextSegment| (t.style, t.text@))
}

fn segment(style: TextStyle, text: &str) -> (t: TextSegment)
    ensures
        t.style == style,
        t.text@ == text@,
{
    TextSegment { style, text: String::from_str(text) }
}

/// `{name} is not backed by a rust type, so it cannot be displayed.`
pub fn error_message_no_type_id(component_name: &str) -> (m: Vec<TextSegment>)
    ensures
        segments_view(m@) == seq![
            (TextStyle::Monospace, component_name@),
            (TextStyle::Proportional, " is not backed by a rust type, so it cannot be displayed."@),
        ],
{
    let m = vec![
        segment(TextStyle::Monospace, component_name),
        segment(TextStyle::Proportional, " is not backed by a rust type, so it cannot be displayed."),
    ];
    assert(segments_view(m@) =~= seq![
        (TextStyle::Monospace, component_name@),
        (TextStyle::Proportional, " is not backed by a rust type, so it cannot be displayed."@),
    ]);
    m
}

/// `{type} has no ReflectFromPtr type data, so it cannot be displayed`
pub fn error_message_no_reflect_from_ptr(shown_type: &str) -> (m: Vec<TextSegment>)
    ensures
        segments_view(m@) == seq![
            (TextStyle::Monospace, shown_type@),
            (TextStyle::Proportional, " has no "@),
            (TextStyle::Monospace, "ReflectFromPtr"@),
            (TextStyle::Proportional, " type data, so it cannot be displayed"@),
        ],
{
    let m = vec![
        segment(TextStyle::Monospace, shown_type),
        segment(TextStyle::Proportional, " has no "),
        segment(TextStyle::Monospace, "ReflectFromPtr"),
        segment(TextStyle::Proportional, " type data, so it cannot be displayed"),
    ];
    assert(segments_view(m@) =~= seq![
        (TextStyle::Monospace, shown_type@),
        (TextStyle::Proportional, " has no "@),
        (TextStyle::Monospace, "ReflectFromPtr"@),
        (TextStyle::Proportional, " type data, so it cannot be displayed"@),
    ]);
    m
}

/// `Entity {index}v{generation} does not exist.`
pub fn error_message_entity_does_not_exist(entity: Entity) -> (m: Vec<TextSegment>)
    ensures
        segments_view(m@) == seq![
            (TextStyle::Proportional, "Entity "@),
            (TextStyle::Monospace, entity_debug_text(entity)),
            (TextStyle::Proportional, " does not exist."@),
        ],
{
    let name = entity.debug_text();
    let m = vec![
        segment(TextStyle::Proportional, "Entity "),
        TextSegment { style: TextStyle::Monospace, text: name },
        segment(TextStyle::Proportional, " does not exist."),
    ];
    assert(segments_view(m@) =~= seq![
        (TextStyle::Proportional, "Entity "@),
        (TextStyle::Monospace, entity_debug_text(entity)),
        (TextStyle::Proportional, " does not exist."@),
    ]);
    m
}

/// `{type} needs the bevy world in the InspectorUi context to provide meaningful information.`
pub fn error_message_no_world_in_context(shown_type: &str) -> (m: Vec<TextSegment>)
    ensures
        segments_view(m@) == seq![
            (TextStyle::Monospace, shown_type@),
            (TextStyle::Proportional, " needs the bevy world in the "@),
            (TextStyle::Monospace, "InspectorUi"@),
            (TextStyle::Proportional, " context to provide meaningful information."@),
        ],
{
    let m = vec![
        segment(TextStyle::Monospace, shown_type),
        segment(TextStyle::Proportional, " needs the bevy world in the "),
        segment(TextStyle::Monospace, "InspectorUi"),
        segment(TextStyle::Proportional, " context to provide meaningful information."),
    ];
    assert(segments_view(m@) =~= seq![
        (TextStyle::Monospace, shown_type@),
        (TextStyle::Proportional, " needs the bevy world in the "@),
        (TextStyle::Monospace, "InspectorUi"@),
        (TextStyle::Proportional, " context to provide meaningful information."@),
    ]);
    m
}

/// `Handle {handle} points to no asset.`, where `handle` is the handle id as
/// its debug text shows it.
pub fn error_message_dead_asset_handle(handle: &str) -> (m: Vec<TextSegment>)
    ensures
        segments_view(m@) == seq![
            (TextStyle::Proportional, "Handle "@),
            (TextStyle::Monospace, handle@),
            (TextStyle::Proportional, " points to no asset."@),
        ],
{
    let m = vec![
        segment(TextStyle::Proportional, "Handle "),
        segment(TextStyle::Monospace, handle),
        segment(TextStyle::Proportional, " points to no asset."),
    ];
    assert(segments_view(m@) =~= seq![
        (TextStyle::Proportional, "Handle "@),
        (TextStyle::Monospace, handle@),
        (TextStyle::Proportional, " points to no asset."@),
    ]);
    m
}

} // verus!
