//! Stable sorting by key: the inspector lists entries in key order, and
//! entries with the same key stay in the order in which they came.

use vstd::prelude::*;
use crate::order::{
    SortKey, lex_le, lemma_lex_le_antisymmetric, lemma_lex_le_reflexive, lemma_lex_le_total,
    lemma_lex_le_transitive,
};

verus! {

/// The keys of `s` never decrease.
pub open spec fn sorted_by_key<T: SortKey>(s: Seq<T>) -> bool {
    forall|i: int, j: int|
        0 <= i < j < s.len() ==> lex_le(#[trigger] s[i].sort_key(), #[trigger] s[j].sort_key())
}

/// The predicate "has key `k`".
pub open spec fn has_key<T: SortKey>(k: Seq<int>) -> spec_fn(T) -> bool {
    |x: T| x.sort_key() == k
}

/// For every key, the entries of `a` with that key are, in order, those of `b`.
pub open spec fn same_order_per_key<T: SortKey>(a: Seq<T>, b: Seq<T>) -> bool {
    forall|k: Seq<int>| #[trigger] a.filter(has_key::<T>(k)) == b.filter(has_key::<T>(k))
}

/// `out` is `inp` sorted stably by key: its keys never decrease, and entries
/// with equal keys keep the order they had in `inp`.
pub open spec fn is_stable_sort_of<T: SortKey>(out: Seq<T>, inp: Seq<T>) -> bool {
    sorted_by_key(out) && same_order_per_key(out, inp)
}

proof fn lemma_filter_none<T>(s: Seq<T>, pred: spec_fn(T) -> bool)
    requires
        forall|i: int| 0 <= i < s.len() ==> !pred(#[trigger] s[i]),
    ensures
        s.filter(pred) == Seq::<T>::empty(),
    decreases s.len(),
{
    reveal(Seq::filter);
    if s.len() > 0 {
        let init = s.drop_last();
        assert forall|i: int| 0 <= i < init.len() implies !pred(#[trigger] init[i]) by {
            assert(init[i] == s[i]);
        }
        lemma_filter_none(init, pred);
        assert(!pred(s[s.len() - 1]));
        assert(!pred(s.last()));
        assert(s.filter(pred) == init.filter(pred));
    }
    assert(s.filter(pred) =~= Seq::<T>::empty());
}

/// Sorts `items` stably by key (as `sort_by` and `sort` do).
pub fn stable_sort<T: SortKey>(items: Vec<T>) -> (out: Vec<T>)
    ensures
        is_stable_sort_of(out@, items@),
{
    let ghost input = items@;
    let mut rest = items;
    let mut out: Vec<T> = Vec::new();
    let ghost mut taken: int = 0;
    proof {
        assert forall|k: Seq<int>| #[trigger] out@.filter(has_key::<T>(k)) == input.take(0).filter(
            has_key::<T>(k),
        ) by {
            assert(out@ =~= input.take(0));
        }
    }
    while rest.len() > 0
        invariant
            0 <= taken <= input.len(),
            rest@ == input.skip(taken),
            is_stable_sort_of(out@, input.take(taken)),
        decreases rest.len(),
    {
        let x = rest.remove(0);
        let ghost old_out = out@;
        let ghost kx = x.sort_key();
        let mut p: usize = 0;
        while p < out.len() && out[p].key_le(&x)
            invariant
                out@ == old_out,
                p <= out.len(),
                sorted_by_key(out@),
                forall|q: int| 0 <= q < p ==> lex_le(#[trigger] out@[q].sort_key(), kx),
                x.sort_key() == kx,
            decreases out.len() - p,
        {
            p = p + 1;
        }
        proof {
            assert forall|q: int| p <= q < old_out.len() implies !lex_le(
                #[trigger] old_out[q].sort_key(),
                kx,
            ) by {
                lemma_lex_le_total(old_out[p as int].sort_key(), kx);
                if lex_le(old_out[q].sort_key(), kx) {
                    if q > p {
                        lemma_lex_le_transitive(
                            old_out[p as int].sort_key(),
                            old_out[q].sort_key(),
                            kx,
                        );
                    }
                }
            }
        }
        out.insert(p, x);
        proof {
            let new_out = out@;
            let prefix = old_out.take(p as int);
            let suffix = old_out.skip(p as int);
            assert(new_out =~= prefix + seq![x] + suffix);
            assert(old_out =~= prefix + suffix);
            assert forall|i: int, j: int| 0 <= i < j < new_out.len() implies lex_le(
                #[trigger] new_out[i].sort_key(),
                #[trigger] new_out[j].sort_key(),
            ) by {
                if j == p {
                    assert(new_out[i] == old_out[i]);
                } else if i == p {
                    assert(new_out[j] == old_out[j - 1]);
                    lemma_lex_le_total(old_out[j - 1].sort_key(), kx);
                } else {
                    let oi = if i < p { i } else { i - 1 };
                    let oj = if j < p { j } else { j - 1 };
                    assert(new_out[i] == old_out[oi]);
                    assert(new_out[j] == old_out[oj]);
                    if oi == oj {
                        lemma_lex_le_reflexive(old_out[oi].sort_key());
                    }
                }
            }
            let consumed = input.take(taken + 1);
            assert(consumed =~= input.take(taken).push(x));
            assert forall|k: Seq<int>| #[trigger] new_out.filter(has_key::<T>(k)) == consumed.filter(
                has_key::<T>(k),
            ) by {
                let pk = has_key::<T>(k);
                Seq::filter_distributes_over_add(prefix + seq![x], suffix, pk);
                Seq::filter_distributes_over_add(prefix, seq![x], pk);
                Seq::filter_distributes_over_add(prefix, suffix, pk);
                input.take(taken).lemma_filter_push(x, pk);
                assert(old_out.filter(pk) == input.take(taken).filter(pk));
                reveal_with_fuel(Seq::filter, 2);
                if kx == k {
                    assert forall|i: int| 0 <= i < suffix.len() implies !pk(#[trigger] suffix[i]) by {
                        assert(suffix[i] == old_out[p + i]);
                        lemma_lex_le_reflexive(kx);
                    }
                    lemma_filter_none(suffix, pk);
                    assert(seq![x].filter(pk) =~= seq![x]);
                    assert(new_out.filter(pk) =~= old_out.filter(pk).push(x));
                } else {
                    assert(seq![x].filter(pk) =~= Seq::<T>::empty());
                    assert(new_out.filter(pk) =~= old_out.filter(pk));
                }
            }
            taken = taken + 1;
            assert(rest@ =~= input.skip(taken));
        }
    }
    proof {
        assert(input.take(taken) =~= input);
    }
    out
}

proof fn lemma_count_through_filter<T>(s: Seq<T>, pred: spec_fn(T) -> bool, x: T)
    requires
        pred(x),
    ensures
        s.to_multiset().count(x) == s.filter(pred).to_multiset().count(x),
    decreases s.len(),
{
    reveal(Seq::filter);
    broadcast use vstd::seq_lib::group_to_multiset_ensures;

    if s.len() == 0 {
        assert(s.filter(pred) =~= s);
    } else {
        let init = s.drop_last();
        lemma_count_through_filter(init, pred, x);
        assert(s =~= init.push(s.last()));
        if pred(s.last()) {
            assert(s.filter(pred) == init.filter(pred).push(s.last()));
        } else {
            assert(s.filter(pred) == init.filter(pred));
        }
    }
}

proof fn lemma_filter_push_last<T>(s: Seq<T>, pred: spec_fn(T) -> bool)
    requires
        s.len() > 0,
    ensures
        pred(s.last()) ==> s.filter(pred) == s.drop_last().filter(pred).push(s.last()),
        !pred(s.last()) ==> s.filter(pred) == s.drop_last().filter(pred),
{
    reveal(Seq::filter);
}

proof fn lemma_filter_nonempty<T>(s: Seq<T>, pred: spec_fn(T) -> bool) -> (j: int)
    requires
        s.filter(pred).len() > 0,
    ensures
        0 <= j < s.len(),
        pred(s[j]),
{
    if forall|i: int| 0 <= i < s.len() ==> !pred(#[trigger] s[i]) {
        lemma_filter_none(s, pred);
        assert(false);
        0
    } else {
        choose|i: int| 0 <= i < s.len() && pred(#[trigger] s[i])
    }
}

/// A stable sort only reorders: it keeps every entry, as often as it occurs.
pub proof fn lemma_stable_sort_is_permutation<T: SortKey>(out: Seq<T>, inp: Seq<T>)
    requires
        is_stable_sort_of(out, inp),
    ensures
        out.to_multiset() == inp.to_multiset(),
        out.len() == inp.len(),
{
    broadcast use vstd::seq_lib::group_to_multiset_ensures;

    assert forall|x: T| out.to_multiset().count(x) == inp.to_multiset().count(x) by {
        let pk = has_key::<T>(x.sort_key());
        lemma_count_through_filter(out, pk, x);
        lemma_count_through_filter(inp, pk, x);
        assert(out.filter(pk) == inp.filter(pk));
    }
    assert(out.to_multiset() =~= inp.to_multiset());
    assert(out.len() == out.to_multiset().len());
    assert(inp.len() == inp.to_multiset().len());
}

proof fn lemma_sorted_max_last<T: SortKey>(s: Seq<T>, j: int)
    requires
        sorted_by_key(s),
        0 <= j < s.len(),
    ensures
        lex_le(s[j].sort_key(), s.last().sort_key()),
{
    if j < s.len() - 1 {
        assert(lex_le(s[j].sort_key(), s[s.len() - 1].sort_key()));
    } else {
        lemma_lex_le_reflexive(s[j].sort_key());
    }
}

proof fn lemma_sorted_same_order_equal<T: SortKey>(a: Seq<T>, b: Seq<T>)
    requires
        sorted_by_key(a),
        sorted_by_key(b),
        same_order_per_key(a, b),
    ensures
        a == b,
    decreases a.len() + b.len(),
{
    if a.len() == 0 && b.len() == 0 {
        assert(a =~= b);
    } else if a.len() == 0 {
        let pb = has_key::<T>(b.last().sort_key());
        lemma_filter_push_last(b, pb);
        assert(a.filter(pb) == b.filter(pb));
        reveal(Seq::filter);
        assert(a.filter(pb).len() == 0);
    } else if b.len() == 0 {
        let pa = has_key::<T>(a.last().sort_key());
        lemma_filter_push_last(a, pa);
        assert(a.filter(pa) == b.filter(pa));
        reveal(Seq::filter);
        assert(b.filter(pa).len() == 0);
    } else {
        let ka = a.last().sort_key();
        let kb = b.last().sort_key();
        let pa = has_key::<T>(ka);
        let pb = has_key::<T>(kb);
        lemma_filter_push_last(a, pa);
        lemma_filter_push_last(b, pb);
        assert(a.filter(pa) == b.filter(pa));
        assert(a.filter(pb) == b.filter(pb));
        let jb = lemma_filter_nonempty(b, pa);
        lemma_sorted_max_last(b, jb);
        let ja = lemma_filter_nonempty(a, pb);
        lemma_sorted_max_last(a, ja);
        lemma_lex_le_antisymmetric(ka, kb);
        assert(a.last() == a.filter(pa).last());
        assert(b.last() == b.filter(pa).last());
        let ia = a.drop_last();
        let ib = b.drop_last();
        assert(sorted_by_key(ia)) by {
            assert forall|i: int, j: int| 0 <= i < j < ia.len() implies lex_le(
                #[trigger] ia[i].sort_key(),
                #[trigger] ia[j].sort_key(),
            ) by {
                assert(ia[i] == a[i] && ia[j] == a[j]);
            }
        }
        assert(sorted_by_key(ib)) by {
            assert forall|i: int, j: int| 0 <= i < j < ib.len() implies lex_le(
                #[trigger] ib[i].sort_key(),
                #[trigger] ib[j].sort_key(),
            ) by {
                assert(ib[i] == b[i] && ib[j] == b[j]);
            }
        }
        assert forall|k: Seq<int>| #[trigger] ia.filter(has_key::<T>(k)) == ib.filter(has_key::<T>(k)) by {
            let pk = has_key::<T>(k);
            lemma_filter_push_last(a, pk);
            lemma_filter_push_last(b, pk);
            assert(a.filter(pk) == b.filter(pk));
            if k == ka {
                assert(ia.filter(pk) =~= a.filter(pk).drop_last());
                assert(ib.filter(pk) =~= b.filter(pk).drop_last());
            }
        }
        lemma_sorted_same_order_equal(ia, ib);
        assert(a =~= ia.push(a.last()));
        assert(b =~= ib.push(b.last()));
    }
}

/// The stable sort of a sequence is unique: any two agree entry for entry.
pub proof fn lemma_stable_sort_unique<T: SortKey>(a: Seq<T>, b: Seq<T>, inp: Seq<T>)
    requires
        is_stable_sort_of(a, inp),
        is_stable_sort_of(b, inp),
    ensures
        a == b,
{
    assert forall|k: Seq<int>| #[trigger] a.filter(has_key::<T>(k)) == b.filter(has_key::<T>(k)) by {
        assert(a.filter(has_key::<T>(k)) == inp.filter(has_key::<T>(k)));
        assert(b.filter(has_key::<T>(k)) == inp.filter(has_key::<T>(k)));
    }
    lemma_sorted_same_order_equal(a, b);
}

/// Sorting what is already in key order gives it back unchanged.
pub proof fn lemma_sorted_input_unchanged<T: SortKey>(out: Seq<T>, inp: Seq<T>)
    requires
        sorted_by_key(inp),
        is_stable_sort_of(out, inp),
    ensures
        out == inp,
{
    lemma_sorted_same_order_equal(out, inp);
}

} // verus!
