//! Entities as the inspector sees them, and the names it gives them.

use vstd::prelude::*;
use crate::order::{SortKey, lex_le};
use crate::text::{decimal, decimal_string, is_digit, lemma_decimal_digits, lemma_decimal_injective};

verus! {

/// An entity of the world: its slot index and the generation of that slot.
#[derive(Clone, Copy, PartialEq, Eq, Structural, Debug)]
pub struct Entity {
    pub index: u32,
    pub generation: u32,
}

/// Entities are listed by generation first, then by index.
impl SortKey for Entity {
    open spec fn sort_key(&self) -> Seq<int> {
        seq![self.generation as int, self.index as int]
    }

    fn key_le(&self, other: &Self) -> (r: bool) {
        proof {
            reveal_with_fuel(lex_le, 3);
            let a = self.sort_key();
            let b = other.sort_key();
            assert(a.drop_first() =~= seq![self.index as int]);
            assert(b.drop_first() =~= seq![other.index as int]);
            assert(a.drop_first().drop_first() =~= Seq::<int>::empty());
        }
        self.generation < other.generation || (self.generation == other.generation && self.index
            <= other.index)
    }
}

/// How an entity is written in messages: its index, `v`, its generation.
pub open spec fn entity_debug_text(e: Entity) -> Seq<char> {
    decimal(e.index as nat) + seq!['v'] + decimal(e.generation as nat)
}

impl Entity {
    /// The entity written as `{index}v{generation}`.
    pub fn debug_text(&self) -> (s: String)
        ensures
            s@ == entity_debug_text(*self),
    {
        proof {
            reveal_strlit("v");
        }
        let mut s = decimal_string(self.index);
        s.append("v");
        let g = decimal_string(self.generation);
        s.append(g.as_str());
        s
    }
}

/// What the world holds for an entity, as far as its name goes.
pub enum EntityLookup {
    /// The world has no such entity.
    Missing,
    /// The entity exists, with the text of its `Name` component if it has one,
    /// and the full type names of its components.
    Found { name: Option<String>, components: Vec<String> },
}

/// The component types by which the kind of an unnamed entity is guessed,
/// each with the name it gives, in order of precedence.
pub open spec fn kind_table() -> Seq<(Seq<char>, Seq<char>)> {
    seq![
        ("bevy_pbr::light::PointLight"@, "Light"@),
        ("bevy_pbr::light::SpotLight"@, "Light"@),
        ("bevy_pbr::light::DirectionalLight"@, "Light"@),
        ("bevy_render::camera::camera::Camera"@, "Camera"@),
        ("bevy_ui::ui_node::Node"@, "Node"@),
        ("bevy_text::text::Text"@, "Text"@),
        ("bevy_sprite::sprite::Sprite"@, "Sprite"@),
    ]
}

/// The guess from the entries of the table from `i` on: the name of the first
/// entry whose component type is among `components`.
pub open spec fn guess_from(components: Seq<Seq<char>>, i: nat) -> Option<Seq<char>>
    decreases kind_table().len() - i,
{
    if i >= kind_table().len() {
        None
    } else if components.contains(kind_table()[i as int].0) {
        Some(kind_table()[i as int].1)
    } else {
        guess_from(components, i + 1)
    }
}

/// The kind guessed for an entity with these component types, if any.
pub open spec fn kind_guess(components: Seq<Seq<char>>) -> Option<Seq<char>> {
    guess_from(components, 0)
}

/// The characters of each string.
pub open spec fn strings_view(v: Seq<String>) -> Seq<Seq<char>> {
    v.map_values(|s: String| s@)
}

/// The name shown for an existing entity: its `Name`; else its guessed kind
/// followed by its index, like `Light (6)`; else `Entity ({index})`.
pub open spec fn guessed_name(e: Entity, name: Option<Seq<char>>, components: Seq<Seq<char>>) -> Seq<char> {
    match name {
        Some(n) => n,
        None => match kind_guess(components) {
            Some(kind) => kind + " ("@ + decimal(e.index as nat) + ")"@,
            None => "Entity ("@ + decimal(e.index as nat) + ")"@,
        },
    }
}

/// The view of an optional string.
pub open spec fn option_view(name: Option<String>) -> Option<Seq<char>> {
    match name {
        Some(n) => Some(n@),
        None => None,
    }
}

/// The name shown for an entity: for one that the world does not hold,
/// `Entity {index} (inexistent)`; else its guessed name.
pub open spec fn entity_label(e: Entity, lookup: EntityLookup) -> Seq<char> {
    match lookup {
        EntityLookup::Missing => "Entity "@ + decimal(e.index as nat) + " (inexistent)"@,
        EntityLookup::Found { name, components } => guessed_name(
            e,
            option_view(name),
            strings_view(components@),
        ),
    }
}

fn kind_entry(i: usize) -> (r: (&'static str, &'static str))
    requires
        i < kind_table().len(),
    ensures
        r.0@ == kind_table()[i as int].0,
        r.1@ == kind_table()[i as int].1,
{
    match i {
        0 => ("bevy_pbr::light::PointLight", "Light"),
        1 => ("bevy_pbr::light::SpotLight", "Light"),
        2 => ("bevy_pbr::light::DirectionalLight", "Light"),
        3 => ("bevy_render::camera::camera::Camera", "Camera"),
        4 => ("bevy_ui::ui_node::Node", "Node"),
        5 => ("bevy_text::text::Text", "Text"),
        _ => ("bevy_sprite::sprite::Sprite", "Sprite"),
    }
}

fn contains_string(v: &Vec<String>, target: &str) -> (r: bool)
    ensures
        r == strings_view(v@).contains(target@),
{
    let t = String::from_str(target);
    let mut j: usize = 0;
    while j < v.len()
        invariant
            j <= v.len(),
            t@ == target@,
            forall|q: int| 0 <= q < j ==> v@[q]@ != target@,
        decreases v.len() - j,
    {
        if v[j] == t {
            assert(strings_view(v@)[j as int] == target@);
            return true;
        }
        j = j + 1;
    }
    assert forall|q: int| 0 <= q < strings_view(v@).len() implies strings_view(v@)[q] != target@ by {
        assert(strings_view(v@)[q] == v@[q]@);
    }
    false
}

/// Guesses the kind of an entity from the full type names of its components
/// (see `kind_table`): a light, a camera, a UI node, a text or a sprite.
pub fn guess_kind(components: &Vec<String>) -> (g: Option<&'static str>)
    ensures
        match g {
            Some(kind) => kind_guess(strings_view(components@)) == Some(kind@),
            None => kind_guess(strings_view(components@)) is None,
        },
{
    let ghost cv = strings_view(components@);
    let mut i: usize = 0;
    while i < 7
        invariant
            i <= 7,
            kind_table().len() == 7,
            cv == strings_view(components@),
            kind_guess(cv) == guess_from(cv, i as nat),
        decreases 7 - i,
    {
        let (component, kind) = kind_entry(i);
        if contains_string(components, component) {
            return Some(kind);
        }
        i = i + 1;
    }
    None
}

/// Guesses a name for an existing entity: its `Name` if it has one, else its
/// kind with its index, like `Light (6)`, falling back to `Entity (8)`.
pub fn guess_entity_name_inner(entity: Entity, name: Option<String>, components: &Vec<String>) -> (s: String)
    ensures
        s@ == guessed_name(entity, option_view(name), strings_view(components@)),
{
    match name {
        Some(n) => n,
        None => {
            proof {
                reveal_strlit("Entity (");
                reveal_strlit(" (");
                reveal_strlit(")");
            }
            let mut s = match guess_kind(components) {
                Some(kind) => {
                    let mut s = String::from_str(kind);
                    s.append(" (");
                    s
                },
                None => String::from_str("Entity ("),
            };
            let d = decimal_string(entity.index);
            s.append(d.as_str());
            s.append(")");
            s
        },
    }
}

/// Guesses an appropriate entity name like `Light (6)` or falls back to
/// `Entity (8)`; for an entity the world does not hold, says so.
pub fn entity_name(entity: Entity, lookup: EntityLookup) -> (s: String)
    ensures
        s@ == entity_label(entity, lookup),
{
    match lookup {
        EntityLookup::Missing => {
            proof {
                reveal_strlit("Entity ");
                reveal_strlit(" (inexistent)");
            }
            let mut s = String::from_str("Entity ");
            let d = decimal_string(entity.index);
            s.append(d.as_str());
            s.append(" (inexistent)");
            s
        },
        EntityLookup::Found { name, components } => guess_entity_name_inner(entity, name, &components),
    }
}

/// Whether the "Children" section of an entity is shown: only when it has a
/// `Children` component that lists at least one child.
pub fn shows_children(children: &Option<Vec<Entity>>) -> (r: bool)
    ensures
        r == (children is Some && children->0.len() > 0),
{
    match children {
        Some(c) => c.len() > 0,
        None => false,
    }
}

/// Different entities are written differently in messages.
pub proof fn lemma_entity_debug_text_injective(e1: Entity, e2: Entity)
    requires
        entity_debug_text(e1) == entity_debug_text(e2),
    ensures
        e1 == e2,
{
    let s = entity_debug_text(e1);
    let i1 = decimal(e1.index as nat);
    let i2 = decimal(e2.index as nat);
    let g1 = decimal(e1.generation as nat);
    let g2 = decimal(e2.generation as nat);
    lemma_decimal_digits(e1.index as nat);
    lemma_decimal_digits(e2.index as nat);
    assert(s == i1 + seq!['v'] + g1);
    assert(s == i2 + seq!['v'] + g2);
    if i1.len() < i2.len() {
        assert(s[i1.len() as int] == 'v');
        assert(s[i1.len() as int] == i2[i1.len() as int]);
        assert(is_digit(i2[i1.len() as int]));
    } else if i2.len() < i1.len() {
        assert(s[i2.len() as int] == 'v');
        assert(s[i2.len() as int] == i1[i2.len() as int]);
        assert(is_digit(i1[i2.len() as int]));
    }
    assert(i1 =~= s.take(i1.len() as int));
    assert(i2 =~= s.take(i2.len() as int));
    assert(g1 =~= s.skip(i1.len() as int + 1));
    assert(g2 =~= s.skip(i2.len() as int + 1));
    lemma_decimal_injective(e1.index as nat, e2.index as nat);
    lemma_decimal_injective(e1.generation as nat, e2.generation as nat);
}

/// Two unnamed entities of no guessed kind get the same fallback name only if
/// they share their index.
pub proof fn lemma_fallback_names_distinct(e1: Entity, e2: Entity, c1: Seq<Seq<char>>, c2: Seq<Seq<char>>)
    requires
        kind_guess(c1) is None,
        kind_guess(c2) is None,
        guessed_name(e1, None, c1) == guessed_name(e2, None, c2),
    ensures
        e1.index == e2.index,
{
    reveal_strlit("Entity (");
    reveal_strlit(")");
    let s = guessed_name(e1, None, c1);
    let d1 = decimal(e1.index as nat);
    let d2 = decimal(e2.index as nat);
    assert(s == "Entity ("@ + d1 + ")"@);
    assert(s == "Entity ("@ + d2 + ")"@);
    assert(d1 =~= s.subrange(8, s.len() - 1));
    assert(d2 =~= s.subrange(8, s.len() - 1));
    lemma_decimal_injective(e1.index as nat, e2.index as nat);
}

/// Entities are ordered as bevy orders them: by generation, then by index as a
/// number.
pub proof fn law_entity_order(a: Entity, b: Entity)
    ensures
        lex_le(a.sort_key(), b.sort_key()) == (a.generation < b.generation || (a.generation == b.generation
            && a.index <= b.index)),
{
    reveal_with_fuel(lex_le, 3);
    let ka = a.sort_key();
    let kb = b.sort_key();
    assert(ka.drop_first() =~= seq![a.index as int]);
    assert(kb.drop_first() =~= seq![b.index as int]);
    assert(ka.drop_first().drop_first() =~= Seq::<int>::empty());
}

/// A sorted list of entities is in bevy's order: for any two positions, the
/// earlier entity has a smaller generation, or the same generation and an
/// index no larger.
pub proof fn law_entities_in_bevy_order(out: Seq<Entity>, inp: Seq<Entity>)
    requires
        crate::sorting::is_stable_sort_of(out, inp),
    ensures
        forall|i: int, j: int|
            0 <= i < j < out.len() ==> (#[trigger] out[i]).generation < (#[trigger] out[j]).generation || (
            out[i].generation == out[j].generation && out[i].index <= out[j].index),
{
    assert forall|i: int, j: int| 0 <= i < j < out.len() implies (#[trigger] out[i]).generation < (
    #[trigger] out[j]).generation || (out[i].generation == out[j].generation && out[i].index
        <= out[j].index) by {
        assert(lex_le(out[i].sort_key(), out[j].sort_key()));
        law_entity_order(out[i], out[j]);
    }
}

} // verus!
