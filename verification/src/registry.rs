//! The resources and assets that the world inspector lists: the registered
//! types that carry the matching type data, in order of their short names.

use vstd::prelude::*;
use crate::order::{SortKey, lemma_name_order_is_str_order, name_key, name_le, str_bytes_le};
use crate::sorting::{is_stable_sort_of, lemma_stable_sort_is_permutation, stable_sort};
use vstd::utf8::encode_utf8;

verus! {

/// The kind of type data that puts a registered type in a list.
#[derive(Clone, Copy, PartialEq, Eq, Structural, Debug)]
pub enum TypeDataKind {
    /// Listed under "Resources": the type has `ReflectResource` data.
    Resource,
    /// Listed under "Assets": the type has `ReflectAsset` data.
    Asset,
}

/// A registered type, as far as the lists need it.
pub struct Registration<T> {
    pub short_name: String,
    pub is_resource: bool,
    pub is_asset: bool,
    pub type_id: T,
}

/// A listed type: its short name and its identity.
pub struct NamedType<T> {
    pub name: String,
    pub type_id: T,
}

impl<T> SortKey for NamedType<T> {
    open spec fn sort_key(&self) -> Seq<int> {
        name_key(self.name@)
    }

    fn key_le(&self, other: &Self) -> (r: bool) {
        name_le(self.name.as_str(), other.name.as_str())
    }
}

/// Whether `r` carries the type data of `kind`.
pub open spec fn has_type_data<T>(r: Registration<T>, kind: TypeDataKind) -> bool {
    match kind {
        TypeDataKind::Resource => r.is_resource,
        TypeDataKind::Asset => r.is_asset,
    }
}

/// The entry under which `r` is listed.
pub open spec fn listed<T>(r: Registration<T>) -> NamedType<T> {
    NamedType { name: r.short_name, type_id: r.type_id }
}

/// The registered types that carry the data of `kind`, each as it is listed,
/// in registration order.
pub open spec fn candidates<T>(regs: Seq<Registration<T>>, kind: TypeDataKind) -> Seq<NamedType<T>> {
    regs.filter(|r: Registration<T>| has_type_data(r, kind)).map_values(|r: Registration<T>| listed(r))
}

/// The list of registered resources (or assets): the registrations that carry
/// the type data of `kind`, sorted stably by short name.
pub fn registered_types<T>(registrations: Vec<Registration<T>>, kind: TypeDataKind) -> (out: Vec<NamedType<T>>)
    ensures
        is_stable_sort_of(out@, candidates(registrations@, kind)),
{
    let ghost regs = registrations@;
    let ghost pred = |r: Registration<T>| has_type_data(r, kind);
    let ghost f = |r: Registration<T>| listed(r);
    let mut rest = registrations;
    let mut picked: Vec<NamedType<T>> = Vec::new();
    let ghost mut n: int = 0;
    proof {
        reveal(Seq::filter);
        assert(picked@ =~= regs.take(0).filter(pred).map_values(f));
    }
    while rest.len() > 0
        invariant
            0 <= n <= regs.len(),
            rest@ == regs.skip(n),
            picked@ == regs.take(n).filter(pred).map_values(f),
            pred == (|r: Registration<T>| has_type_data(r, kind)),
            f == (|r: Registration<T>| listed(r)),
        decreases rest.len(),
    {
        let r = rest.remove(0);
        proof {
            assert(regs.take(n + 1) =~= regs.take(n).push(r));
            regs.take(n).lemma_filter_push(r, pred);
        }
        let keep = match kind {
            TypeDataKind::Resource => r.is_resource,
            TypeDataKind::Asset => r.is_asset,
        };
        if keep {
            picked.push(NamedType { name: r.short_name, type_id: r.type_id });
            proof {
                assert(picked@ =~= regs.take(n + 1).filter(pred).map_values(f));
            }
        }
        proof {
            n = n + 1;
            assert(rest@ =~= regs.skip(n));
        }
    }
    proof {
        assert(regs.take(n) =~= regs);
    }
    stable_sort(picked)
}

/// The listed types are in the order in which `str::cmp` orders their short
/// names: for any two positions, the earlier name comes no later.
pub proof fn law_listed_types_in_str_order<T>(
    out: Seq<NamedType<T>>,
    regs: Seq<Registration<T>>,
    kind: TypeDataKind,
)
    requires
        is_stable_sort_of(out, candidates(regs, kind)),
    ensures
        forall|i: int, j: int|
            0 <= i < j < out.len() ==> str_bytes_le(
                encode_utf8(#[trigger] out[i].name@),
                encode_utf8(#[trigger] out[j].name@),
            ),
{
    assert forall|i: int, j: int| 0 <= i < j < out.len() implies str_bytes_le(
        encode_utf8(#[trigger] out[i].name@),
        encode_utf8(#[trigger] out[j].name@),
    ) by {
        assert(crate::order::lex_le(out[i].sort_key(), out[j].sort_key()));
        lemma_name_order_is_str_order(out[i].name@, out[j].name@);
    }
}

/// Exactly the registrations that carry the type data of `kind` are listed,
/// each as often as it is registered, under its short name and type id.
pub proof fn law_listed_types_are_the_candidates<T>(
    out: Seq<NamedType<T>>,
    regs: Seq<Registration<T>>,
    kind: TypeDataKind,
)
    requires
        is_stable_sort_of(out, candidates(regs, kind)),
    ensures
        out.to_multiset() == regs.filter(|r: Registration<T>| has_type_data(r, kind)).map_values(
            |r: Registration<T>| NamedType { name: r.short_name, type_id: r.type_id },
        ).to_multiset(),
{
    lemma_stable_sort_is_permutation(out, candidates(regs, kind));
    assert(candidates(regs, kind) =~= regs.filter(|r: Registration<T>| has_type_data(r, kind)).map_values(
        |r: Registration<T>| NamedType { name: r.short_name, type_id: r.type_id },
    ));
}

} // verus!
