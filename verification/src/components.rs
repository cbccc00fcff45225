//! The components of an entity as the inspector lists them: under their
//! pretty type names, in order of those names, and what is shown for each.

use vstd::prelude::*;
use vstd::std_specs::iter::IteratorSpec;
use crate::order::{SortKey, lemma_name_order_is_str_order, name_key, name_le, str_bytes_le};
use crate::sorting::{is_stable_sort_of, lemma_stable_sort_is_permutation, stable_sort};
use vstd::utf8::encode_utf8;

verus! {

/// What `pretty_type_name::pretty_type_name_str` makes of a type name.
pub uninterp spec fn pretty_type_name_of(full_name: Seq<char>) -> Seq<char>;

/// The suffix `::{{closure}}` that closure type names end with.
pub open spec fn closure_suffix() -> Seq<char> {
    seq![':', ':', '{', '{', 'c', 'l', 'o', 's', 'u', 'r', 'e', '}', '}']
}

/// `s` ends with `::{{closure}}`.
pub open spec fn ends_with_closure(s: Seq<char>) -> bool {
    s.len() >= 13 && s.skip(s.len() - 13) == closure_suffix()
}

/// Every `,` and `;` in `s` (scanning from the left, the character after
/// each being skipped) is followed by a one-byte character.
pub open spec fn separators_well_formed(s: Seq<char>) -> bool
    decreases s.len(),
{
    if s.len() == 0 {
        true
    } else if s[0] == ',' || s[0] == ';' {
        s.len() >= 2 && (s[1] as u32) < 128 && separators_well_formed(s.skip(2))
    } else {
        separators_well_formed(s.skip(1))
    }
}

/// The type names that `pretty_type_name_str` shortens without panicking:
/// after the `::{{closure}}` suffixes are stripped, the separators are well formed.
/// (On a `,` or `;` it steps over two bytes, assuming a space follows.)
pub open spec fn pretty_name_defined(s: Seq<char>) -> bool
    decreases s.len(),
{
    if ends_with_closure(s) {
        pretty_name_defined(s.take(s.len() - 13))
    } else {
        separators_well_formed(s)
    }
}

/// Shortens a type name as `pretty_type_name::pretty_type_name_str` does:
/// `alloc::vec::Vec<my::Thing>` becomes `Vec<Thing>`. The contract claims
/// only that the result is the function's output on the name; it panics on the
/// names that `pretty_name_defined` leaves out.
#[verifier::external_body]
fn pretty_name(full_name: &str) -> (r: String)
    requires
        pretty_name_defined(full_name@),
    ensures
        r@ == pretty_type_name_of(full_name@),
{
    pretty_type_name::pretty_type_name_str(full_name)
}

/// The characters of `s`.
fn chars_of(s: &str) -> (v: Vec<char>)
    ensures
        v@ == s@,
{
    broadcast use vstd::string::group_string_axioms;
    let mut it = s.chars();
    let mut v: Vec<char> = Vec::new();
    loop
        invariant
            v@ + it.remaining() == s@,
            it.obeys_prophetic_iter_laws(),
            it.decrease() is Some,
        decreases it.decrease()->0,
    {
        let ghost before = it.remaining();
        match it.next() {
            None => {
                assert(v@ =~= s@);
                return v;
            },
            Some(c) => {
                v.push(c);
                assert(v@ + it.remaining() =~= s@) by {
                    assert(before =~= seq![c] + before.drop_first());
                }
            },
        }
    }
}

fn ends_with_closure_at(v: &Vec<char>, end: usize) -> (r: bool)
    requires
        13 <= end <= v.len(),
    ensures
        r == ends_with_closure(v@.take(end as int)),
{
    let suffix = vec![':', ':', '{', '{', 'c', 'l', 'o', 's', 'u', 'r', 'e', '}', '}'];
    assert(suffix@ =~= closure_suffix());
    let ghost t = v@.take(end as int);
    let start = end - 13;
    let mut j: usize = 0;
    while j < 13
        invariant
            j <= 13,
            start == end - 13,
            13 <= end <= v.len(),
            t == v@.take(end as int),
            suffix@ == closure_suffix(),
            forall|q: int| 0 <= q < j ==> v@[start + q] == suffix@[q],
        decreases 13 - j,
    {
        if v[start + j] != suffix[j] {
            assert(t.skip(t.len() - 13)[j as int] == v@[start + j]);
            return false;
        }
        j = j + 1;
    }
    assert(t.skip(t.len() - 13) =~= closure_suffix());
    true
}

/// Whether `pretty_type_name_str` is defined on `full_name` (see `pretty_name_defined`).
pub fn pretty_name_is_defined(full_name: &str) -> (r: bool)
    ensures
        r == pretty_name_defined(full_name@),
{
    let v = chars_of(full_name);
    let mut end = v.len();
    assert(v@.take(v.len() as int) =~= v@);
    while end >= 13 && ends_with_closure_at(&v, end)
        invariant
            end <= v.len(),
            pretty_name_defined(v@) == pretty_name_defined(v@.take(end as int)),
        decreases end,
    {
        proof {
            let t = v@.take(end as int);
            assert(t.take(t.len() - 13) =~= v@.take(end - 13));
            assert(v@.take(v.len() as int) =~= v@);
        }
        end = end - 13;
    }
    let ghost t = v@.take(end as int);
    proof {
        assert(v@.take(v.len() as int) =~= v@);
        assert(!ends_with_closure(t));
        assert(t.skip(0) =~= t);
    }
    let mut i: usize = 0;
    while i < end
        invariant
            i <= end,
            end <= v.len(),
            t == v@.take(end as int),
            pretty_name_defined(full_name@) == separators_well_formed(t),
            separators_well_formed(t) == separators_well_formed(t.skip(i as int)),
            v@ == full_name@,
        decreases end - i,
    {
        let ghost rest = t.skip(i as int);
        assert(rest[0] == v@[i as int]);
        if v[i] == ',' || v[i] == ';' {
            if i + 1 >= end || (v[i + 1] as u32) >= 128 {
                return false;
            }
            assert(rest[1] == v@[i + 1]);
            assert(rest.skip(2) =~= t.skip(i + 2));
            i = i + 2;
        } else {
            assert(rest.skip(1) =~= t.skip(i + 1));
            i = i + 1;
        }
    }
    proof {
        assert(t.skip(i as int) =~= Seq::<char>::empty());
    }
    true
}

/// A component of an entity: its name, its id, the Rust type behind it if
/// any, and the size of its values in bytes.
pub struct ComponentEntry<I, T> {
    pub name: String,
    pub component_id: I,
    pub type_id: Option<T>,
    pub size: usize,
}

impl<I, T> SortKey for ComponentEntry<I, T> {
    open spec fn sort_key(&self) -> Seq<int> {
        name_key(self.name@)
    }

    fn key_le(&self, other: &Self) -> (r: bool) {
        name_le(self.name.as_str(), other.name.as_str())
    }
}

/// `out` is `inp` with every name replaced by its pretty form.
pub open spec fn prettified<I, T>(out: Seq<ComponentEntry<I, T>>, inp: Seq<ComponentEntry<I, T>>) -> bool {
    &&& out.len() == inp.len()
    &&& forall|i: int|
        0 <= i < inp.len() ==> {
            &&& (#[trigger] out[i]).name@ == pretty_type_name_of(inp[i].name@)
            &&& out[i].component_id == inp[i].component_id
            &&& out[i].type_id == inp[i].type_id
            &&& out[i].size == inp[i].size
        }
}

/// Replaces the name of every component by its pretty form.
pub fn prettify_names<I, T>(components: Vec<ComponentEntry<I, T>>) -> (out: Vec<ComponentEntry<I, T>>)
    requires
        forall|i: int| 0 <= i < components@.len() ==> pretty_name_defined(#[trigger] components@[i].name@),
    ensures
        prettified(out@, components@),
{
    let ghost inp = components@;
    let mut rest = components;
    let mut out: Vec<ComponentEntry<I, T>> = Vec::new();
    let ghost mut n: int = 0;
    while rest.len() > 0
        invariant
            0 <= n <= inp.len(),
            rest@ == inp.skip(n),
            out@.len() == n,
            forall|i: int| 0 <= i < inp.len() ==> pretty_name_defined(#[trigger] inp[i].name@),
            forall|i: int|
                0 <= i < n ==> {
                    &&& (#[trigger] out@[i]).name@ == pretty_type_name_of(inp[i].name@)
                    &&& out@[i].component_id == inp[i].component_id
                    &&& out@[i].type_id == inp[i].type_id
                    &&& out@[i].size == inp[i].size
                },
        decreases rest.len(),
    {
        let c = rest.remove(0);
        assert(c == inp[n]);
        let name = pretty_name(c.name.as_str());
        out.push(ComponentEntry { name, component_id: c.component_id, type_id: c.type_id, size: c.size });
        proof {
            n = n + 1;
            assert(rest@ =~= inp.skip(n));
        }
    }
    out
}

/// The components of an entity, listed under their pretty type names and
/// sorted stably by those names.
pub fn components_of_entity<I, T>(components: Vec<ComponentEntry<I, T>>) -> (out: Vec<ComponentEntry<I, T>>)
    requires
        forall|i: int| 0 <= i < components@.len() ==> pretty_name_defined(#[trigger] components@[i].name@),
    ensures
        exists|named: Seq<ComponentEntry<I, T>>| prettified(named, components@) && is_stable_sort_of(out@, named),
{
    let named = prettify_names(components);
    let ghost named_view = named@;
    let out = stable_sort(named);
    assert(prettified(named_view, components@) && is_stable_sort_of(out@, named_view));
    out
}

/// What the inspector shows for one component of an entity.
#[derive(Clone, Copy, PartialEq, Eq, Structural, Debug)]
pub enum ComponentDisplay {
    /// Nothing: the component has zero-sized values.
    Nothing,
    /// The message that no Rust type backs the component.
    NoTypeId,
    /// The message that the type has no `ReflectFromPtr` data.
    NoReflectFromPtr,
    /// The value, through reflection.
    Value,
}

/// The rule for what is shown of a component: nothing for a zero-sized one;
/// else a message when it has no Rust type, or when that type has no
/// `ReflectFromPtr` data; else its value.
pub open spec fn component_display_rule(size: nat, has_type_id: bool, has_reflect_from_ptr: bool) -> ComponentDisplay {
    if size == 0 {
        ComponentDisplay::Nothing
    } else if !has_type_id {
        ComponentDisplay::NoTypeId
    } else if !has_reflect_from_ptr {
        ComponentDisplay::NoReflectFromPtr
    } else {
        ComponentDisplay::Value
    }
}

/// Decides what is shown for a component (see `component_display_rule`).
pub fn component_display(size: usize, has_type_id: bool, has_reflect_from_ptr: bool) -> (d: ComponentDisplay)
    ensures
        d == component_display_rule(size as nat, has_type_id, has_reflect_from_ptr),
{
    if size == 0 {
        ComponentDisplay::Nothing
    } else if !has_type_id {
        ComponentDisplay::NoTypeId
    } else if !has_reflect_from_ptr {
        ComponentDisplay::NoReflectFromPtr
    } else {
        ComponentDisplay::Value
    }
}

/// Every component of the entity is listed, whatever its size: the list is as
/// long as the input, and each input component appears in it under its pretty
/// name with its id, type id and size.
pub proof fn law_every_component_is_listed<I, T>(out: Seq<ComponentEntry<I, T>>, inp: Seq<ComponentEntry<I, T>>)
    requires
        exists|named: Seq<ComponentEntry<I, T>>| prettified(named, inp) && is_stable_sort_of(out, named),
    ensures
        out.len() == inp.len(),
        forall|i: int|
            0 <= i < inp.len() ==> exists|j: int|
                0 <= j < out.len() && (#[trigger] out[j]).name@ == pretty_type_name_of((#[trigger] inp[i]).name@)
                    && out[j].component_id == inp[i].component_id && out[j].type_id == inp[i].type_id
                    && out[j].size == inp[i].size,
{
    broadcast use vstd::seq_lib::group_to_multiset_ensures;

    let named = choose|named: Seq<ComponentEntry<I, T>>| prettified(named, inp) && is_stable_sort_of(out, named);
    lemma_stable_sort_is_permutation(out, named);
    assert forall|i: int| 0 <= i < inp.len() implies exists|j: int|
        0 <= j < out.len() && (#[trigger] out[j]).name@ == pretty_type_name_of((#[trigger] inp[i]).name@)
            && out[j].component_id == inp[i].component_id && out[j].type_id == inp[i].type_id
            && out[j].size == inp[i].size by {
        let c = named[i];
        assert(named.contains(c));
        assert(named.to_multiset().count(c) > 0);
        assert(out.to_multiset().count(c) > 0);
        assert(out.contains(c));
        let j = choose|j: int| 0 <= j < out.len() && out[j] == c;
        assert(out[j] == c);
    }
}

/// The components are listed in the order in which `str::cmp` orders their
/// pretty names.
pub proof fn law_components_in_str_order<I, T>(out: Seq<ComponentEntry<I, T>>, named: Seq<ComponentEntry<I, T>>)
    requires
        is_stable_sort_of(out, named),
    ensures
        forall|i: int, j: int|
            0 <= i < j < out.len() ==> str_bytes_le(
                encode_utf8(#[trigger] out[i].name@),
                encode_utf8(#[trigger] out[j].name@),
            ),
{
    assert forall|i: int, j: int| 0 <= i < j < out.len() implies str_bytes_le(
        encode_utf8(#[trigger] out[i].name@),
        encode_utf8(#[trigger] out[j].name@),
    ) by {
        assert(crate::order::lex_le(out[i].sort_key(), out[j].sort_key()));
        lemma_name_order_is_str_order(out[i].name@, out[j].name@);
    }
}

/// A zero-sized component shows nothing, whatever its type and type data; a
/// sized one shows its value exactly when it has a Rust type with
/// `ReflectFromPtr` data, the missing-type message exactly when it has no Rust
/// type, and the missing-data message exactly when its type lacks the data.
pub proof fn law_component_display(size: nat, has_type_id: bool, has_reflect_from_ptr: bool)
    ensures
        size == 0 ==> component_display_rule(size, has_type_id, has_reflect_from_ptr) == ComponentDisplay::Nothing,
        (component_display_rule(size, has_type_id, has_reflect_from_ptr) == ComponentDisplay::Value) == (size > 0
            && has_type_id && has_reflect_from_ptr),
        (component_display_rule(size, has_type_id, has_reflect_from_ptr) == ComponentDisplay::NoTypeId) == (size > 0
            && !has_type_id),
        (component_display_rule(size, has_type_id, has_reflect_from_ptr) == ComponentDisplay::NoReflectFromPtr) == (
        size > 0 && has_type_id && !has_reflect_from_ptr),
{
}

} // verus!
