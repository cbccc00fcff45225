//! The order in which the inspector lists things: lexicographic order on
//! sequences of integers, which covers both names (compared byte by byte,
//! as `str` compares) and entities (compared by generation, then
//! by index, as bevy's derived order does).

use vstd::prelude::*;
use vstd::utf8::{encode_utf8, encode_utf8_decode_utf8};

verus! {

/// `a` comes no later than `b` in lexicographic order: at the first place where
/// they differ the element of `a` is smaller, or `a` is a prefix of `b`.
pub open spec fn lex_le(a: Seq<int>, b: Seq<int>) -> bool
    decreases a.len(),
{
    if a.len() == 0 {
        true
    } else if b.len() == 0 {
        false
    } else if a[0] != b[0] {
        a[0] < b[0]
    } else {
        lex_le(a.drop_first(), b.drop_first())
    }
}

/// Every sequence comes no later than itself.
pub proof fn lemma_lex_le_reflexive(a: Seq<int>)
    ensures
        lex_le(a, a),
    decreases a.len(),
{
    if a.len() > 0 {
        lemma_lex_le_reflexive(a.drop_first());
    }
}

/// Any two sequences are ordered one way or the other.
pub proof fn lemma_lex_le_total(a: Seq<int>, b: Seq<int>)
    ensures
        lex_le(a, b) || lex_le(b, a),
    decreases a.len(),
{
    if a.len() > 0 && b.len() > 0 && a[0] == b[0] {
        lemma_lex_le_total(a.drop_first(), b.drop_first());
    }
}

/// The order is transitive.
pub proof fn lemma_lex_le_transitive(a: Seq<int>, b: Seq<int>, c: Seq<int>)
    requires
        lex_le(a, b),
        lex_le(b, c),
    ensures
        lex_le(a, c),
    decreases a.len(),
{
    if a.len() > 0 && b.len() > 0 && c.len() > 0 && a[0] == b[0] && b[0] == c[0] {
        lemma_lex_le_transitive(a.drop_first(), b.drop_first(), c.drop_first());
    }
}

/// Two sequences that are each no later than the other are equal.
pub proof fn lemma_lex_le_antisymmetric(a: Seq<int>, b: Seq<int>)
    requires
        lex_le(a, b),
        lex_le(b, a),
    ensures
        a == b,
    decreases a.len(),
{
    if a.len() > 0 && b.len() > 0 {
        lemma_lex_le_antisymmetric(a.drop_first(), b.drop_first());
        assert(a =~= seq![a[0]] + a.drop_first());
        assert(b =~= seq![b[0]] + b.drop_first());
    }
}

/// The key of a name: the bytes of its UTF-8 encoding.
pub open spec fn name_key(name: Seq<char>) -> Seq<int> {
    encode_utf8(name).map_values(|b: u8| b as int)
}

/// Names with the same key are the same name, so entries that tie in the
/// order are exactly those with equal names.
pub proof fn lemma_name_key_injective(a: Seq<char>, b: Seq<char>)
    requires
        name_key(a) == name_key(b),
    ensures
        a == b,
{
    let ea = encode_utf8(a);
    let eb = encode_utf8(b);
    assert(ea.len() == name_key(a).len());
    assert(eb.len() == name_key(b).len());
    assert forall|i: int| 0 <= i < ea.len() implies ea[i] == eb[i] by {
        assert(name_key(a)[i] == ea[i] as int);
        assert(name_key(b)[i] == eb[i] as int);
    }
    assert(ea =~= eb);
    encode_utf8_decode_utf8(a);
    encode_utf8_decode_utf8(b);
}

/// Something that the inspector lists in order, by a key.
pub trait SortKey {
    /// The key by which the item is ordered.
    spec fn sort_key(&self) -> Seq<int>;

    /// Whether the key of `self` comes no later than the key of `other`.
    fn key_le(&self, other: &Self) -> (r: bool)
        ensures
            r == lex_le(self.sort_key(), other.sort_key()),
    ;
}

fn bytes_le(a: &[u8], b: &[u8]) -> (r: bool)
    ensures
        r == lex_le(a@.map_values(|x: u8| x as int), b@.map_values(|x: u8| x as int)),
{
    let ghost ka = a@.map_values(|x: u8| x as int);
    let ghost kb = b@.map_values(|x: u8| x as int);
    let mut i: usize = 0;
    assert(ka.skip(0) =~= ka);
    assert(kb.skip(0) =~= kb);
    while i < a.len() && i < b.len() && a[i] == b[i]
        invariant
            i <= a.len(),
            i <= b.len(),
            ka == a@.map_values(|x: u8| x as int),
            kb == b@.map_values(|x: u8| x as int),
            lex_le(ka, kb) == lex_le(ka.skip(i as int), kb.skip(i as int)),
        decreases a.len() - i,
    {
        assert(ka.skip(i as int)[0] == kb.skip(i as int)[0]);
        assert(ka.skip(i as int).drop_first() =~= ka.skip(i + 1));
        assert(kb.skip(i as int).drop_first() =~= kb.skip(i + 1));
        i = i + 1;
    }
    if i == a.len() {
        true
    } else if i == b.len() {
        false
    } else {
        assert(ka.skip(i as int)[0] == a@[i as int] as int);
        assert(kb.skip(i as int)[0] == b@[i as int] as int);
        a[i] < b[i]
    }
}

/// Whether `a` sorts no later than `b`: lexicographically by the bytes of
/// their UTF-8 encodings, the order in which `str` compares.
pub fn name_le(a: &str, b: &str) -> (r: bool)
    ensures
        r == lex_le(name_key(a@), name_key(b@)),
{
    bytes_le(a.as_bytes(), b.as_bytes())
}

/// `a` comes no later than `b` in the order of `str::cmp` on byte strings:
/// `a` is a prefix of `b`, or at the first place where they differ the byte
/// of `a` is the smaller.
pub open spec fn str_bytes_le(a: Seq<u8>, b: Seq<u8>) -> bool {
    ||| (a.len() <= b.len() && a == b.take(a.len() as int))
    ||| exists|k: int| 0 <= k < a.len() && k < b.len() && a.take(k) == b.take(k) && a[k] < b[k]
}

/// The key order on byte strings (each byte taken as an integer) is the
/// order in which `str::cmp` compares them.
pub proof fn lemma_bytes_key_order(a: Seq<u8>, b: Seq<u8>)
    ensures
        lex_le(a.map_values(|x: u8| x as int), b.map_values(|x: u8| x as int)) == str_bytes_le(a, b),
    decreases a.len(),
{
    let ka = a.map_values(|x: u8| x as int);
    let kb = b.map_values(|x: u8| x as int);
    if a.len() == 0 {
        assert(a =~= b.take(0));
    } else if b.len() == 0 {
    } else if a[0] != b[0] {
        assert(ka[0] == a[0] as int && kb[0] == b[0] as int);
        if a.len() <= b.len() && a == b.take(a.len() as int) {
            assert(a[0] == b.take(a.len() as int)[0]);
        }
        if a[0] < b[0] {
            assert(a.take(0) =~= b.take(0));
        } else {
            assert forall|k: int|
                0 <= k < a.len() && k < b.len() && a.take(k) == b.take(k) implies !(a[k] < b[k]) by {
                if k > 0 {
                    assert(a.take(k)[0] == b.take(k)[0]);
                }
            }
        }
    } else {
        let a1 = a.drop_first();
        let b1 = b.drop_first();
        lemma_bytes_key_order(a1, b1);
        assert(ka.drop_first() =~= a1.map_values(|x: u8| x as int));
        assert(kb.drop_first() =~= b1.map_values(|x: u8| x as int));
        assert(ka[0] == kb[0]);
        // prefix case
        if a.len() <= b.len() && a == b.take(a.len() as int) {
            assert(a1 =~= b1.take(a1.len() as int));
        }
        if a1.len() <= b1.len() && a1 == b1.take(a1.len() as int) {
            assert(a =~= b.take(a.len() as int)) by {
                assert forall|i: int| 0 <= i < a.len() implies #[trigger] a[i] == b.take(a.len() as int)[i] by {
                    if i > 0 {
                        assert(a[i] == a1[i - 1]);
                        assert(b[i] == b1[i - 1]);
                        assert(b1.take(a1.len() as int)[i - 1] == b1[i - 1]);
                    }
                }
            }
        }
        // difference case
        if exists|k: int| 0 <= k < a.len() && k < b.len() && a.take(k) == b.take(k) && a[k] < b[k] {
            let k = choose|k: int| 0 <= k < a.len() && k < b.len() && a.take(k) == b.take(k) && a[k] < b[k];
            assert(k > 0);
            assert(a1.take(k - 1) =~= b1.take(k - 1)) by {
                assert forall|i: int| 0 <= i < k - 1 implies #[trigger] a1.take(k - 1)[i] == b1.take(k - 1)[i] by {
                    assert(a.take(k)[i + 1] == b.take(k)[i + 1]);
                }
            }
            assert(a1[k - 1] == a[k] && b1[k - 1] == b[k]);
        }
        if exists|k: int| 0 <= k < a1.len() && k < b1.len() && a1.take(k) == b1.take(k) && a1[k] < b1[k] {
            let k = choose|k: int| 0 <= k < a1.len() && k < b1.len() && a1.take(k) == b1.take(k) && a1[k] < b1[k];
            assert(a.take(k + 1) =~= b.take(k + 1)) by {
                assert forall|i: int| 0 <= i < k + 1 implies #[trigger] a.take(k + 1)[i] == b.take(k + 1)[i] by {
                    if i > 0 {
                        assert(a1.take(k)[i - 1] == b1.take(k)[i - 1]);
                    }
                }
            }
            assert(a[k + 1] == a1[k] && b[k + 1] == b1[k]);
        }
    }
}

/// Names are ordered as `str::cmp` orders them: by the bytes of their UTF-8
/// encodings.
pub proof fn lemma_name_order_is_str_order(a: Seq<char>, b: Seq<char>)
    ensures
        lex_le(name_key(a), name_key(b)) == str_bytes_le(encode_utf8(a), encode_utf8(b)),
{
    lemma_bytes_key_order(encode_utf8(a), encode_utf8(b));
}

} // verus!
