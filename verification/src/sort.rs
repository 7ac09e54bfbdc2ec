//! Sorting lists of EVR and NEVRA strings in RPM order.
use vstd::prelude::*;
use vstd::utf8::encode_utf8;

use crate::compare::evr_compare;
use crate::evr::split_evr;
use crate::laws::evr_string_order;
use crate::nevra::{nevra_compare, nevra_string_order, split_nevra};
use crate::total_order::{
    law_evr_order_antisymmetric, law_evr_order_equal_substitutes, law_evr_order_transitive,
    law_nevra_order_antisymmetric, law_nevra_order_equal_substitutes, law_nevra_order_transitive,
};

verus! {

broadcast use vstd::seq_lib::group_to_multiset_ensures;

/// The order of two strings (their characters) as NEVRA strings when
/// `nevra` holds, as EVR strings otherwise.
pub open spec fn text_order(nevra: bool, a: Seq<char>, b: Seq<char>) -> int {
    if nevra {
        nevra_string_order(encode_utf8(a), encode_utf8(b))
    } else {
        evr_string_order(encode_utf8(a), encode_utf8(b))
    }
}

/// True when the strings of `s` are in ascending order (NEVRA order when
/// `nevra` holds, EVR order otherwise).
pub open spec fn sorted_by(nevra: bool, s: Seq<String>) -> bool {
    forall|i: int, j: int| 0 <= i < j < s.len() ==> text_order(nevra, s[i]@, s[j]@) <= 0
}

/// The order of strings is a total order: each is equal to itself, swapping
/// flips the order, the order is transitive, and equal strings compare
/// alike with any third one.
pub proof fn lemma_text_order(nevra: bool, a: Seq<char>, b: Seq<char>, c: Seq<char>)
    ensures
        text_order(nevra, a, a) == 0,
        -1 <= text_order(nevra, a, b) <= 1,
        text_order(nevra, b, a) == -text_order(nevra, a, b),
        text_order(nevra, a, b) < 0 && text_order(nevra, b, c) < 0 ==> text_order(nevra, a, c) < 0,
        text_order(nevra, a, b) == 0 ==> text_order(nevra, a, c) == text_order(nevra, b, c),
{
    let (x, y, z) = (encode_utf8(a), encode_utf8(b), encode_utf8(c));
    if nevra {
        let (n1, e1, v1, r1, a1) = split_nevra(x);
        let (n2, e2, v2, r2, a2) = split_nevra(y);
        let (n3, e3, v3, r3, a3) = split_nevra(z);
        law_nevra_order_antisymmetric(n1, e1, v1, r1, a1, n2, e2, v2, r2, a2);
        if text_order(nevra, a, b) < 0 && text_order(nevra, b, c) < 0 {
            law_nevra_order_transitive(
                n1,
                e1,
                v1,
                r1,
                a1,
                n2,
                e2,
                v2,
                r2,
                a2,
                n3,
                e3,
                v3,
                r3,
                a3,
            );
        }
        if text_order(nevra, a, b) == 0 {
            law_nevra_order_equal_substitutes(
                n1,
                e1,
                v1,
                r1,
                a1,
                n2,
                e2,
                v2,
                r2,
                a2,
                n3,
                e3,
                v3,
                r3,
                a3,
            );
        }
    } else {
        let (e1, v1, r1) = split_evr(x);
        let (e2, v2, r2) = split_evr(y);
        let (e3, v3, r3) = split_evr(z);
        law_evr_order_antisymmetric(e1, v1, r1, e2, v2, r2);
        if text_order(nevra, a, b) < 0 && text_order(nevra, b, c) < 0 {
            law_evr_order_transitive(e1, v1, r1, e2, v2, r2, e3, v3, r3);
        }
        if text_order(nevra, a, b) == 0 {
            law_evr_order_equal_substitutes(e1, v1, r1, e2, v2, r2, e3, v3, r3);
        }
    }
}

/// If `a` is before `b` and `b` is not after `c`, then `a` is before `c`.
proof fn lemma_text_order_lt_le(nevra: bool, a: Seq<char>, b: Seq<char>, c: Seq<char>)
    requires
        text_order(nevra, a, b) < 0,
        text_order(nevra, b, c) <= 0,
    ensures
        text_order(nevra, a, c) < 0,
{
    lemma_text_order(nevra, a, b, c);
    if text_order(nevra, b, c) == 0 {
        lemma_text_order(nevra, b, c, a);
        lemma_text_order(nevra, a, c, b);
        lemma_text_order(nevra, c, a, b);
    }
}

/// Compare two strings as NEVRA strings when `nevra` holds, as EVR strings
/// otherwise.
fn compare_texts(nevra: bool, a: &str, b: &str) -> (c: i32)
    ensures
        c == text_order(nevra, a@, b@),
{
    if nevra {
        nevra_compare(a, b)
    } else {
        evr_compare(a, b)
    }
}

/// Sorts the strings by insertion, in NEVRA order when `nevra` holds, in EVR
/// order otherwise.
fn sort_texts(nevra: bool, items: Vec<String>) -> (out: Vec<String>)
    ensures
        out@.to_multiset() == items@.to_multiset(),
        sorted_by(nevra, out@),
{
    let mut rest = items;
    let mut out: Vec<String> = Vec::new();
    assert(out@.to_multiset().add(rest@.to_multiset()) =~= items@.to_multiset());
    while rest.len() > 0
        invariant
            out@.to_multiset().add(rest@.to_multiset()) == items@.to_multiset(),
            sorted_by(nevra, out@),
        decreases rest.len(),
    {
        let ghost old_rest = rest@;
        let x = match rest.pop() {
            Some(x) => x,
            None => {
                assert(false);
                return out;
            },
        };
        assert(old_rest == rest@.push(x));
        // The first place whose string sorts after `x`.
        let mut k: usize = 0;
        while k < out.len() && compare_texts(nevra, x.as_str(), out[k].as_str()) >= 0
            invariant
                k <= out@.len(),
                forall|i: int| 0 <= i < k ==> text_order(nevra, x@, out@[i]@) >= 0,
            decreases out@.len() - k,
        {
            k += 1;
        }
        let ghost before = out@;
        out.insert(k, x);
        proof {
            let after = out@;
            assert(after.remove(k as int) =~= before);
            assert(after[k as int] == x);
            assert(after.to_multiset() =~= before.to_multiset().insert(x));
            assert(old_rest.to_multiset() =~= rest@.to_multiset().insert(x));
            assert(out@.to_multiset().add(rest@.to_multiset()) =~= items@.to_multiset());
            assert forall|i: int, j: int| 0 <= i < j < after.len() implies text_order(
                nevra,
                after[i]@,
                after[j]@,
            ) <= 0 by {
                if j < k {
                    assert(after[i] == before[i] && after[j] == before[j]);
                } else if j == k {
                    assert(after[i] == before[i]);
                    lemma_text_order(nevra, x@, before[i]@, x@);
                } else if i == k {
                    assert(after[j] == before[j - 1]);
                    let first = before[k as int];
                    lemma_text_order(nevra, x@, first@, x@);
                    assert(text_order(nevra, x@, first@) < 0);
                    if j - 1 > k {
                        lemma_text_order_lt_le(nevra, x@, first@, before[j - 1]@);
                    }
                } else if i < k {
                    assert(after[i] == before[i] && after[j] == before[j - 1]);
                } else {
                    assert(after[i] == before[i - 1] && after[j] == before[j - 1]);
                }
            }
        }
    }
    assert(rest@.to_multiset() =~= vstd::multiset::Multiset::<String>::empty());
    out
}

/// Sort EVR strings (such as `"1:2.0-1"`) in RPM order: the result holds the
/// same strings, in ascending order.
pub fn evr_sort(items: Vec<String>) -> (out: Vec<String>)
    ensures
        out@.to_multiset() == items@.to_multiset(),
        sorted_by(false, out@),
{
    sort_texts(false, items)
}

/// Sort NEVRA strings (such as `"foo-1.0-1.x86_64"`) by name, then EVR in
/// RPM order, then architecture: the result holds the same strings, in
/// ascending order.
pub fn nevra_sort(items: Vec<String>) -> (out: Vec<String>)
    ensures
        out@.to_multiset() == items@.to_multiset(),
        sorted_by(true, out@),
{
    sort_texts(true, items)
}

} // verus!
