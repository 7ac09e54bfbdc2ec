//! Lexicographic (memcmp-style) comparison of byte sequences.
use vstd::prelude::*;

verus! {

/// Byte-by-byte comparison of `a` and `b`: -1, 0 or 1 as `a` sorts before,
/// equal to, or after `b`. A proper prefix sorts before the longer sequence.
/// This is the order of `Ord for [u8]` and of `memcmp` followed by a length
/// comparison.
pub open spec fn lex_order(a: Seq<u8>, b: Seq<u8>) -> int
    decreases a.len(),
{
    if a.len() == 0 {
        if b.len() == 0 {
            0
        } else {
            -1
        }
    } else if b.len() == 0 {
        1
    } else if a[0] < b[0] {
        -1
    } else if a[0] > b[0] {
        1
    } else {
        lex_order(a.drop_first(), b.drop_first())
    }
}

/// The comparison is -1, 0 or 1; it is 0 exactly for equal sequences, and
/// swapping the arguments negates it.
pub proof fn lemma_lex_order_basics(a: Seq<u8>, b: Seq<u8>)
    ensures
        -1 <= lex_order(a, b) <= 1,
        lex_order(a, b) == 0 <==> a == b,
        lex_order(b, a) == -lex_order(a, b),
    decreases a.len(),
{
    if a.len() > 0 && b.len() > 0 && a[0] == b[0] {
        lemma_lex_order_basics(a.drop_first(), b.drop_first());
        if a.drop_first() == b.drop_first() {
            assert(a == seq![a[0]] + a.drop_first());
            assert(b == seq![b[0]] + b.drop_first());
        }
    }
    if a.len() == 0 && b.len() == 0 {
        assert(a == b);
    }
    if a == b && a.len() > 0 {
        assert(a[0] == b[0]);
    }
}

/// A common prefix does not change the comparison.
pub proof fn lemma_lex_order_common_prefix(p: Seq<u8>, u: Seq<u8>, v: Seq<u8>)
    ensures
        lex_order(p + u, p + v) == lex_order(u, v),
    decreases p.len(),
{
    if p.len() > 0 {
        lemma_lex_order_common_prefix(p.drop_first(), u, v);
        assert((p + u).drop_first() == p.drop_first() + u);
        assert((p + v).drop_first() == p.drop_first() + v);
    } else {
        assert(p + u == u);
        assert(p + v == v);
    }
}

/// Sequences that start with different bytes compare as those bytes; with the
/// same first byte they compare as their remainders.
pub proof fn lemma_lex_order_head(c: u8, d: u8, u: Seq<u8>, v: Seq<u8>)
    ensures
        lex_order(seq![c] + u, seq![d] + v) == (if c < d {
            -1
        } else if c > d {
            1
        } else {
            lex_order(u, v)
        }),
{
    assert((seq![c] + u).drop_first() == u);
    assert((seq![d] + v).drop_first() == v);
}

/// Two NUL-free sequences, each closed by a `0x00` byte and followed by
/// anything, compare as the two sequences themselves; when those are equal,
/// the comparison goes on to what follows.
pub proof fn lemma_lex_order_terminated(ta: Seq<u8>, tb: Seq<u8>, x: Seq<u8>, y: Seq<u8>)
    requires
        forall|i: int| 0 <= i < ta.len() ==> ta[i] != 0,
        forall|i: int| 0 <= i < tb.len() ==> tb[i] != 0,
    ensures
        lex_order(ta + seq![0u8] + x, tb + seq![0u8] + y) == (if ta == tb {
            lex_order(x, y)
        } else {
            lex_order(ta, tb)
        }),
    decreases ta.len(),
{
    let u = ta + seq![0u8] + x;
    let v = tb + seq![0u8] + y;
    if ta.len() == 0 && tb.len() == 0 {
        assert(u == seq![0u8] + x);
        assert(v == seq![0u8] + y);
        lemma_lex_order_head(0, 0, x, y);
        assert(ta == tb);
    } else if ta.len() == 0 {
        assert(u[0] == 0);
        assert(v[0] == tb[0]);
        assert(tb[0] != 0);
        assert(ta != tb);
    } else if tb.len() == 0 {
        assert(v[0] == 0);
        assert(u[0] == ta[0]);
        assert(ta[0] != 0);
        assert(ta != tb);
    } else {
        assert(u[0] == ta[0]);
        assert(v[0] == tb[0]);
        if ta[0] == tb[0] {
            lemma_lex_order_terminated(ta.drop_first(), tb.drop_first(), x, y);
            assert(u.drop_first() == ta.drop_first() + seq![0u8] + x);
            assert(v.drop_first() == tb.drop_first() + seq![0u8] + y);
            if ta.drop_first() == tb.drop_first() {
                assert(ta == seq![ta[0]] + ta.drop_first());
                assert(tb == seq![tb[0]] + tb.drop_first());
            } else {
                assert(ta != tb);
            }
        } else {
            assert(ta != tb);
        }
    }
}

} // verus!
