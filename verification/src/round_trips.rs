//! Parsing undoes writing: an EVR or NEVRA string built from its parts
//! splits back into exactly those parts, whatever their lengths, and the
//! text of an EVR parses back to that EVR.
use vstd::prelude::*;
use vstd::utf8::encode_utf8;

use crate::evr::{
    first_position, last_position, lemma_first_position, lemma_last_position,
    lemma_last_position_none, split_evr, COLON, DASH,
};
use crate::nevra::{split_nevra, DOT};
use crate::package::{epoch_prefix, evr_text, release_suffix};

verus! {

/// True when no byte of `s` is `b`.
pub open spec fn free_of(s: Seq<u8>, b: u8) -> bool {
    forall|i: int| 0 <= i < s.len() ==> s[i] != b
}

/// In `p + [b] + s`, where `p` holds no `b`, the first `b` is the one after
/// `p`.
proof fn lemma_first_after(p: Seq<u8>, b: u8, s: Seq<u8>)
    requires
        free_of(p, b),
    ensures
        first_position(p + seq![b] + s, b) == Some(p.len() as int),
{
    let w = p + seq![b] + s;
    assert forall|i: int| 0 <= i < p.len() implies w[i] != b by {
        assert(w[i] == p[i]);
    }
    assert(w[p.len() as int] == b);
    lemma_first_position(w, b, p.len() as int);
}

/// In `s + [b] + r`, where `r` holds no `b`, the last `b` is the one before
/// `r`.
proof fn lemma_last_before(s: Seq<u8>, b: u8, r: Seq<u8>)
    requires
        free_of(r, b),
    ensures
        last_position(s + seq![b] + r, b) == Some(s.len() as int),
{
    let w = s + seq![b] + r;
    assert forall|i: int| s.len() < i < w.len() implies w[i] != b by {
        assert(w[i] == r[i - s.len() - 1]);
    }
    assert(w[s.len() as int] == b);
    lemma_last_position(w, b, s.len() as int);
}

/// A sequence without `b` has no first `b`.
proof fn lemma_first_none(s: Seq<u8>, b: u8)
    requires
        free_of(s, b),
    ensures
        first_position(s, b) is None,
{
    lemma_first_position(s, b, s.len() as int);
}

/// An EVR string `e:v-r` splits back into `e`, `v` and `r`, when the epoch
/// holds no `:` and the release no `-` (the version may hold both).
pub proof fn law_split_evr_round_trip(e: Seq<u8>, v: Seq<u8>, r: Seq<u8>)
    requires
        free_of(e, COLON),
        free_of(r, DASH),
    ensures
        split_evr(e + seq![COLON] + v + seq![DASH] + r) == (e, v, r),
{
    let vr = v + seq![DASH] + r;
    let s = e + seq![COLON] + vr;
    assert(e + seq![COLON] + v + seq![DASH] + r == s);
    lemma_first_after(e, COLON, vr);
    assert(s.take(e.len() as int) == e);
    assert(s.skip(e.len() as int + 1) == vr);
    lemma_last_before(v, DASH, r);
    assert(vr.take(v.len() as int) == v);
    assert(vr.skip(v.len() as int + 1) == r);
}

/// An EVR string `e:v`, without release, splits back into `e`, `v` and an
/// empty release, when the epoch holds no `:` and the version no `-`.
pub proof fn law_split_evr_without_release(e: Seq<u8>, v: Seq<u8>)
    requires
        free_of(e, COLON),
        free_of(v, DASH),
    ensures
        split_evr(e + seq![COLON] + v) == (e, v, Seq::<u8>::empty()),
{
    let s = e + seq![COLON] + v;
    lemma_first_after(e, COLON, v);
    assert(s.take(e.len() as int) == e);
    assert(s.skip(e.len() as int + 1) == v);
    lemma_last_position_none(v, DASH);
}

/// An EVR string `v-r` without `:` has an empty epoch and splits into `v`
/// and `r` when the release holds no `-`.
pub proof fn law_split_evr_without_epoch(v: Seq<u8>, r: Seq<u8>)
    requires
        free_of(v, COLON),
        free_of(r, COLON),
        free_of(r, DASH),
    ensures
        split_evr(v + seq![DASH] + r) == (Seq::<u8>::empty(), v, r),
{
    let s = v + seq![DASH] + r;
    assert forall|i: int| 0 <= i < s.len() implies s[i] != COLON by {
        if i < v.len() {
            assert(s[i] == v[i]);
        } else if i > v.len() {
            assert(s[i] == r[i - v.len() - 1]);
        } else {
            assert(s[i] == DASH);
        }
    }
    lemma_first_none(s, COLON);
    lemma_last_before(v, DASH, r);
    assert(s.take(v.len() as int) == v);
    assert(s.skip(v.len() as int + 1) == r);
}

/// A NEVRA string `n-e:v-r.a` splits back into `n`, `e`, `v`, `r` and `a`,
/// when the epoch holds no `:` nor `-`, the version and release no `-`, and
/// the architecture no `.` (the name may hold anything).
pub proof fn law_split_nevra_round_trip(
    n: Seq<u8>,
    e: Seq<u8>,
    v: Seq<u8>,
    r: Seq<u8>,
    a: Seq<u8>,
)
    requires
        free_of(e, COLON),
        free_of(e, DASH),
        free_of(v, DASH),
        free_of(r, DASH),
        free_of(a, DOT),
    ensures
        split_nevra(n + seq![DASH] + e + seq![COLON] + v + seq![DASH] + r + seq![DOT] + a) == (
            n,
            e,
            v,
            r,
            a,
        ),
{
    let ev = e + seq![COLON] + v;
    let q = n + seq![DASH] + ev;
    let p = q + seq![DASH] + r;
    let s = p + seq![DOT] + a;
    assert(n + seq![DASH] + e + seq![COLON] + v + seq![DASH] + r + seq![DOT] + a == s);
    lemma_last_before(p, DOT, a);
    assert(s.take(p.len() as int) == p);
    assert(s.skip(p.len() as int + 1) == a);
    lemma_last_before(q, DASH, r);
    assert(p.take(q.len() as int) == q);
    assert(p.skip(q.len() as int + 1) == r);
    assert forall|i: int| 0 <= i < ev.len() implies ev[i] != DASH by {
        if i < e.len() {
            assert(ev[i] == e[i]);
        } else if i > e.len() {
            assert(ev[i] == v[i - e.len() - 1]);
        }
    }
    lemma_last_before(n, DASH, ev);
    assert(q.take(n.len() as int) == n);
    assert(q.skip(n.len() as int + 1) == ev);
    lemma_first_after(e, COLON, v);
    assert(ev.take(e.len() as int) == e);
    assert(ev.skip(e.len() as int + 1) == v);
}

/// A NEVRA string `n-v-r.a` without epoch splits back into `n`, an empty
/// epoch, `v`, `r` and `a`, when the version holds no `:` nor `-`, the
/// release no `-`, and the architecture no `.`.
pub proof fn law_split_nevra_without_epoch(n: Seq<u8>, v: Seq<u8>, r: Seq<u8>, a: Seq<u8>)
    requires
        free_of(v, COLON),
        free_of(v, DASH),
        free_of(r, DASH),
        free_of(a, DOT),
    ensures
        split_nevra(n + seq![DASH] + v + seq![DASH] + r + seq![DOT] + a) == (
            n,
            Seq::<u8>::empty(),
            v,
            r,
            a,
        ),
{
    let q = n + seq![DASH] + v;
    let p = q + seq![DASH] + r;
    let s = p + seq![DOT] + a;
    assert(n + seq![DASH] + v + seq![DASH] + r + seq![DOT] + a == s);
    lemma_last_before(p, DOT, a);
    assert(s.take(p.len() as int) == p);
    assert(s.skip(p.len() as int + 1) == a);
    lemma_last_before(q, DASH, r);
    assert(p.take(q.len() as int) == q);
    assert(p.skip(q.len() as int + 1) == r);
    lemma_last_before(n, DASH, v);
    assert(q.take(n.len() as int) == n);
    assert(q.skip(n.len() as int + 1) == v);
    lemma_first_none(v, COLON);
}

/// The bytes of two strings joined are the bytes of each, joined.
pub proof fn lemma_encode_concat(x: Seq<char>, y: Seq<char>)
    ensures
        encode_utf8(x + y) == encode_utf8(x) + encode_utf8(y),
    decreases x.len(),
{
    if x.len() == 0 {
        assert(x + y == y);
    } else {
        assert((x + y)[0] == x[0]);
        assert((x + y).drop_first() == x.drop_first() + y);
        lemma_encode_concat(x.drop_first(), y);
    }
}

/// The bytes of `:`, `-` and `.`.
proof fn lemma_encode_marks()
    ensures
        encode_utf8(seq![':']) == seq![COLON],
        encode_utf8(seq!['-']) == seq![DASH],
        encode_utf8(seq!['.']) == seq![DOT],
{
    assert((0x3au32 & 0x7f) as u8 == 0x3a) by (bit_vector);
    assert((0x2du32 & 0x7f) as u8 == 0x2d) by (bit_vector);
    assert((0x2eu32 & 0x7f) as u8 == 0x2e) by (bit_vector);
    assert((':' as u32) == 0x3a);
    assert(('-' as u32) == 0x2d);
    assert(('.' as u32) == 0x2e);
    reveal_with_fuel(encode_utf8, 2);
    assert(seq![':'].drop_first() == Seq::<char>::empty());
    assert(seq!['-'].drop_first() == Seq::<char>::empty());
    assert(seq!['.'].drop_first() == Seq::<char>::empty());
    assert(vstd::utf8::encode_scalar(0x3a) == seq![COLON]);
    assert(vstd::utf8::encode_scalar(0x2d) == seq![DASH]);
    assert(vstd::utf8::encode_scalar(0x2e) == seq![DOT]);
    assert(seq![COLON] + Seq::<u8>::empty() == seq![COLON]);
    assert(seq![DASH] + Seq::<u8>::empty() == seq![DASH]);
    assert(seq![DOT] + Seq::<u8>::empty() == seq![DOT]);
}

/// The text of an EVR with an epoch starts with that epoch and `:`, then the
/// version, then `-` and the release when there is one.
pub proof fn law_evr_text_keeps_parts(e: Seq<char>, v: Seq<char>, r: Seq<char>)
    ensures
        e.len() > 0 ==> evr_text(e, v, r).take(e.len() as int + 1) == e + seq![':'],
        e.len() > 0 && r.len() > 0 ==> evr_text(e, v, r) == e + seq![':'] + v + seq!['-'] + r,
        e.len() == 0 && r.len() > 0 ==> evr_text(e, v, r) == v + seq!['-'] + r,
        r.len() == 0 ==> evr_text(e, v, r) == epoch_prefix(e) + v,
{
    assert(e.len() == 0 ==> epoch_prefix(e) + v + release_suffix(r) == v + release_suffix(r));
    if e.len() > 0 {
        assert((e + seq![':'] + v + release_suffix(r)).take(e.len() as int + 1) == e + seq![':']);
    }
    if r.len() == 0 {
        assert(epoch_prefix(e) + v + release_suffix(r) == epoch_prefix(e) + v);
    }
}

/// Parsing the text of an EVR gives that EVR back, when it has an epoch
/// without `:` and a release without `-`.
pub proof fn law_evr_text_parses_back(e: Seq<char>, v: Seq<char>, r: Seq<char>)
    requires
        e.len() > 0,
        r.len() > 0,
        free_of(encode_utf8(e), COLON),
        free_of(encode_utf8(r), DASH),
    ensures
        split_evr(encode_utf8(evr_text(e, v, r))) == (encode_utf8(e), encode_utf8(v), encode_utf8(
            r,
        )),
{
    law_evr_text_keeps_parts(e, v, r);
    lemma_encode_marks();
    lemma_encode_concat(e, seq![':']);
    lemma_encode_concat(e + seq![':'], v);
    lemma_encode_concat(e + seq![':'] + v, seq!['-']);
    lemma_encode_concat(e + seq![':'] + v + seq!['-'], r);
    law_split_evr_round_trip(encode_utf8(e), encode_utf8(v), encode_utf8(r));
}

} // verus!
