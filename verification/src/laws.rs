//! Why the sortkeys work: the byte order of two keys is the RPM order of what
//! they encode.
use vstd::prelude::*;

use crate::ascii::{
    all_digits, alpha_run, digit_run, is_alpha, is_digit, is_separator,
    lemma_alpha_run, lemma_digit_run, lemma_skip_separators, lemma_strip_zeros,
    skip_separators, strip_zeros, CARET, TILDE,
};
use crate::evr::{epoch_value, split_evr};
use crate::lexical::{
    lemma_lex_order_basics, lemma_lex_order_common_prefix, lemma_lex_order_head,
    lemma_lex_order_terminated, lex_order,
};
use crate::sortkey::{
    be_bytes, count_bytes, evr_key, evr_string_key, version_key, version_tokens,
    MARK_ALPHA, MARK_CARET, MARK_END, MARK_NUMERIC, MARK_TILDE, SEGMENT_END, COUNT_MORE,
};
use crate::version_order::rpm_version_order;

verus! {

/// The RPM order of two EVRs given as epoch, version and release strings
/// (their bytes): the numeric epochs first (empty or unparseable ones count
/// as 0), then the versions, then the releases.
pub open spec fn evr_order(
    e1: Seq<u8>,
    v1: Seq<u8>,
    r1: Seq<u8>,
    e2: Seq<u8>,
    v2: Seq<u8>,
    r2: Seq<u8>,
) -> int {
    let p = epoch_value(e1);
    let q = epoch_value(e2);
    if p < q {
        -1
    } else if p > q {
        1
    } else if rpm_version_order(v1, v2) != 0 {
        rpm_version_order(v1, v2)
    } else {
        rpm_version_order(r1, r2)
    }
}

/// The RPM order of two EVR strings such as `1:2.3.4-5` (their bytes).
pub open spec fn evr_string_order(s1: Seq<u8>, s2: Seq<u8>) -> int {
    let (e1, v1, r1) = split_evr(s1);
    let (e2, v2, r2) = split_evr(s2);
    evr_order(e1, v1, r1, e2, v2, r2)
}

/// The first byte of the sortkey of a version that starts with `t` (past
/// its separators).
pub open spec fn head_marker(t: Seq<u8>) -> u8 {
    if t.len() == 0 {
        MARK_END
    } else if t[0] == TILDE {
        MARK_TILDE
    } else if t[0] == CARET {
        MARK_CARET
    } else if is_digit(t[0]) {
        MARK_NUMERIC
    } else {
        MARK_ALPHA
    }
}

/// Separators leave no trace in the tokens, and they hold no digits.
proof fn lemma_tokens_skip_separators(s: Seq<u8>)
    ensures
        version_tokens(s) == version_tokens(skip_separators(s)),
    decreases s.len(),
{
    if s.len() > 0 && is_separator(s[0]) {
        lemma_tokens_skip_separators(s.drop_first());
    }
}

/// Digit-count encodings, each followed by what it counts, compare as the
/// counts; equal counts pass the comparison on to what follows. What follows
/// a count must start with a byte below `0xff` (a digit, or the segment end).
pub proof fn lemma_count_bytes_order(n: nat, m: nat, x: Seq<u8>, y: Seq<u8>)
    requires
        x.len() > 0 && x[0] < COUNT_MORE,
        y.len() > 0 && y[0] < COUNT_MORE,
    ensures
        lex_order(count_bytes(n) + x, count_bytes(m) + y) == (if n < m {
            -1
        } else if n > m {
            1
        } else {
            lex_order(x, y)
        }),
    decreases n,
{
    let u = count_bytes(n) + x;
    let v = count_bytes(m) + y;
    if n < 256 && m < 256 {
        assert(u == seq![n as u8] + x);
        assert(v == seq![m as u8] + y);
        lemma_lex_order_head(n as u8, m as u8, x, y);
    } else if n < 256 {
        let m1 = (m - 256) as nat;
        assert(u == seq![n as u8] + x);
        assert(v == seq![COUNT_MORE] + (seq![COUNT_MORE] + (count_bytes(m1) + y)));
        lemma_lex_order_head(n as u8, COUNT_MORE, x, seq![COUNT_MORE] + (count_bytes(m1) + y));
        assert((seq![COUNT_MORE] + (count_bytes(m1) + y))[0] == COUNT_MORE);
    } else if m < 256 {
        let n1 = (n - 256) as nat;
        assert(v == seq![m as u8] + y);
        assert(u == seq![COUNT_MORE] + (seq![COUNT_MORE] + (count_bytes(n1) + x)));
        lemma_lex_order_head(COUNT_MORE, m as u8, seq![COUNT_MORE] + (count_bytes(n1) + x), y);
        assert((seq![COUNT_MORE] + (count_bytes(n1) + x))[0] == COUNT_MORE);
    } else {
        let n1 = (n - 256) as nat;
        let m1 = (m - 256) as nat;
        lemma_count_bytes_order(n1, m1, x, y);
        assert(u == seq![COUNT_MORE] + (seq![COUNT_MORE] + (count_bytes(n1) + x)));
        assert(v == seq![COUNT_MORE] + (seq![COUNT_MORE] + (count_bytes(m1) + y)));
        lemma_lex_order_head(
            COUNT_MORE,
            COUNT_MORE,
            seq![COUNT_MORE] + (count_bytes(n1) + x),
            seq![COUNT_MORE] + (count_bytes(m1) + y),
        );
        lemma_lex_order_head(COUNT_MORE, COUNT_MORE, count_bytes(n1) + x, count_bytes(m1) + y);
    }
}

/// The sortkey of a version past its separators starts with its head
/// marker.
proof fn lemma_key_head(t: Seq<u8>, z: Seq<u8>)
    requires
        t.len() == 0 || !is_separator(t[0]),
    ensures
        (version_tokens(t) + seq![MARK_END] + z).len() > 0,
        (version_tokens(t) + seq![MARK_END] + z)[0] == head_marker(t),
{
    if t.len() > 0 && is_digit(t[0]) {
        lemma_digit_run(t, 0);
    } else if t.len() > 0 && is_alpha(t[0]) {
        lemma_alpha_run(t, 0);
    }
}

/// Sequences whose first bytes differ compare as those bytes.
proof fn lemma_lex_order_first(u: Seq<u8>, v: Seq<u8>)
    requires
        u.len() > 0,
        v.len() > 0,
        u[0] != v[0],
    ensures
        lex_order(u, v) == (if u[0] < v[0] {
            -1int
        } else {
            1int
        }),
{
}

/// A run of digits, or what is left of it once its leading zeros are
/// dropped, holds no `0x00` byte.
proof fn lemma_digits_no_nul(s: Seq<u8>)
    requires
        all_digits(s),
    ensures
        forall|i: int| 0 <= i < strip_zeros(s).len() ==> strip_zeros(s)[i] != 0,
        forall|i: int| 0 <= i < strip_zeros(s).len() ==> is_digit(#[trigger] strip_zeros(s)[i]),
{
    lemma_strip_zeros(s, 0);
    let j = choose|j: int| 0 <= j <= s.len() && strip_zeros(s) == s.skip(j);
    assert forall|i: int| 0 <= i < strip_zeros(s).len() implies strip_zeros(s)[i] != 0
        && is_digit(strip_zeros(s)[i]) by {
        assert(strip_zeros(s)[i] == s[j + i]);
        assert(is_digit(s[j + i]));
    }
}

/// The RPM order of two versions is the byte order of their sortkeys,
/// whatever follows the keys: when the versions are equal in that order,
/// their tokens are the same; otherwise the keys differ before either ends.
#[verifier::rlimit(50)]
pub proof fn lemma_version_key_order(a: Seq<u8>, b: Seq<u8>, x: Seq<u8>, y: Seq<u8>)
    ensures
        rpm_version_order(a, b) == 0 ==> version_tokens(a) == version_tokens(b),
        rpm_version_order(a, b) != 0 ==> lex_order(
            version_tokens(a) + seq![MARK_END] + x,
            version_tokens(b) + seq![MARK_END] + y,
        ) == rpm_version_order(a, b),
    decreases a.len() + b.len(),
{
    let t = skip_separators(a);
    let u = skip_separators(b);
    lemma_skip_separators(a, 0);
    lemma_skip_separators(b, 0);
    lemma_tokens_skip_separators(a);
    lemma_tokens_skip_separators(b);
    let ka = version_tokens(t) + seq![MARK_END] + x;
    let kb = version_tokens(u) + seq![MARK_END] + y;
    lemma_key_head(t, x);
    lemma_key_head(u, y);
    let ht = head_marker(t);
    let hu = head_marker(u);
    if ht != hu {
        lemma_lex_order_first(ka, kb);
        if t.len() > 0 && is_digit(t[0]) && u.len() > 0 && is_alpha(u[0]) {
            assert(digit_run(u) == 0);
        }
        if t.len() > 0 && is_alpha(t[0]) && u.len() > 0 && is_digit(u[0]) {
            assert(alpha_run(u) == 0);
        }
    } else if ht == MARK_END {
        assert(version_tokens(t) == Seq::<u8>::empty());
        assert(version_tokens(u) == Seq::<u8>::empty());
    } else if ht == MARK_TILDE || ht == MARK_CARET {
        let t1 = t.drop_first();
        let u1 = u.drop_first();
        lemma_version_key_order(t1, u1, x, y);
        assert(ka == seq![ht] + (version_tokens(t1) + seq![MARK_END] + x));
        assert(kb == seq![ht] + (version_tokens(u1) + seq![MARK_END] + y));
        lemma_lex_order_head(ht, ht, version_tokens(t1) + seq![MARK_END] + x, version_tokens(u1)
            + seq![MARK_END] + y);
    } else if ht == MARK_NUMERIC {
        let nx = digit_run(t) as int;
        let ny = digit_run(u) as int;
        lemma_digit_run(t, 0);
        lemma_digit_run(u, 0);
        let dx = strip_zeros(t.take(nx));
        let dy = strip_zeros(u.take(ny));
        lemma_digits_no_nul(t.take(nx));
        lemma_digits_no_nul(u.take(ny));
        let t1 = t.skip(nx);
        let u1 = u.skip(ny);
        let ra = version_tokens(t1) + seq![MARK_END] + x;
        let rb = version_tokens(u1) + seq![MARK_END] + y;
        lemma_version_key_order(t1, u1, x, y);
        assert(ka == seq![MARK_NUMERIC] + (count_bytes(dx.len()) + (dx + seq![SEGMENT_END] + ra)));
        assert(kb == seq![MARK_NUMERIC] + (count_bytes(dy.len()) + (dy + seq![SEGMENT_END] + rb)));
        lemma_lex_order_head(
            MARK_NUMERIC,
            MARK_NUMERIC,
            count_bytes(dx.len()) + (dx + seq![SEGMENT_END] + ra),
            count_bytes(dy.len()) + (dy + seq![SEGMENT_END] + rb),
        );
        if dx.len() > 0 {
            assert(is_digit(dx[0]));
            assert((dx + seq![SEGMENT_END] + ra)[0] == dx[0]);
        } else {
            assert((dx + seq![SEGMENT_END] + ra)[0] == SEGMENT_END);
        }
        if dy.len() > 0 {
            assert(is_digit(dy[0]));
            assert((dy + seq![SEGMENT_END] + rb)[0] == dy[0]);
        } else {
            assert((dy + seq![SEGMENT_END] + rb)[0] == SEGMENT_END);
        }
        lemma_count_bytes_order(
            dx.len(),
            dy.len(),
            dx + seq![SEGMENT_END] + ra,
            dy + seq![SEGMENT_END] + rb,
        );
        lemma_lex_order_terminated(dx, dy, ra, rb);
        lemma_lex_order_basics(dx, dy);
    } else {
        let nx = alpha_run(t) as int;
        let ny = alpha_run(u) as int;
        lemma_alpha_run(t, 0);
        lemma_alpha_run(u, 0);
        let ta = t.take(nx);
        let tb = u.take(ny);
        assert forall|i: int| 0 <= i < ta.len() implies ta[i] != 0 by {
            assert(is_alpha(ta[i]));
        }
        assert forall|i: int| 0 <= i < tb.len() implies tb[i] != 0 by {
            assert(is_alpha(tb[i]));
        }
        let t1 = t.skip(nx);
        let u1 = u.skip(ny);
        let ra = version_tokens(t1) + seq![MARK_END] + x;
        let rb = version_tokens(u1) + seq![MARK_END] + y;
        lemma_version_key_order(t1, u1, x, y);
        assert(ka == seq![MARK_ALPHA] + (ta + seq![SEGMENT_END] + ra));
        assert(kb == seq![MARK_ALPHA] + (tb + seq![SEGMENT_END] + rb));
        lemma_lex_order_head(
            MARK_ALPHA,
            MARK_ALPHA,
            ta + seq![SEGMENT_END] + ra,
            tb + seq![SEGMENT_END] + rb,
        );
        lemma_lex_order_terminated(ta, tb, ra, rb);
        lemma_lex_order_basics(ta, tb);
    }
}

/// Four big-endian bytes compare as the numbers they encode; equal ones
/// pass the comparison on to what follows.
pub proof fn lemma_be_bytes_order(p: u32, q: u32, x: Seq<u8>, y: Seq<u8>)
    ensures
        lex_order(be_bytes(p) + x, be_bytes(q) + y) == (if p < q {
            -1
        } else if p > q {
            1
        } else {
            lex_order(x, y)
        }),
{
    let a0 = (p / 0x100_0000) as u8;
    let a1 = ((p / 0x1_0000) % 0x100) as u8;
    let a2 = ((p / 0x100) % 0x100) as u8;
    let a3 = (p % 0x100) as u8;
    let b0 = (q / 0x100_0000) as u8;
    let b1 = ((q / 0x1_0000) % 0x100) as u8;
    let b2 = ((q / 0x100) % 0x100) as u8;
    let b3 = (q % 0x100) as u8;
    assert(be_bytes(p) + x == seq![a0] + (seq![a1] + (seq![a2] + (seq![a3] + x))));
    assert(be_bytes(q) + y == seq![b0] + (seq![b1] + (seq![b2] + (seq![b3] + y))));
    lemma_lex_order_head(a0, b0, seq![a1] + (seq![a2] + (seq![a3] + x)), seq![b1] + (seq![b2] + (
    seq![b3] + y)));
    lemma_lex_order_head(a1, b1, seq![a2] + (seq![a3] + x), seq![b2] + (seq![b3] + y));
    lemma_lex_order_head(a2, b2, seq![a3] + x, seq![b3] + y);
    lemma_lex_order_head(a3, b3, x, y);
    lemma_u32_byte_order(p, q);
    lemma_u32_byte_order(q, p);
    assert(a0 == p / 0x100_0000 && b0 == q / 0x100_0000);
    assert(a1 == (p / 0x1_0000) % 0x100 && b1 == (q / 0x1_0000) % 0x100);
    assert(a2 == (p / 0x100) % 0x100 && b2 == (q / 0x100) % 0x100);
    assert(a3 == p % 0x100 && b3 == q % 0x100);
}

/// The big-endian bytes of `u32` numbers are in the order of the numbers.
proof fn lemma_u32_byte_order(p: u32, q: u32)
    ensures
        p / 0x100_0000 < 0x100,
        p < q ==> (p / 0x100_0000 < q / 0x100_0000 || (p / 0x100_0000 == q / 0x100_0000 && ((p
            / 0x1_0000) % 0x100 < (q / 0x1_0000) % 0x100 || ((p / 0x1_0000) % 0x100 == (q
            / 0x1_0000) % 0x100 && ((p / 0x100) % 0x100 < (q / 0x100) % 0x100 || ((p / 0x100)
            % 0x100 == (q / 0x100) % 0x100 && p % 0x100 < q % 0x100)))))),
{
    assert(p / 0x100_0000 < 0x100) by (bit_vector);
    assert(p < q ==> (p / 0x100_0000 < q / 0x100_0000 || (p / 0x100_0000 == q / 0x100_0000 && ((p
        / 0x1_0000) % 0x100 < (q / 0x1_0000) % 0x100 || ((p / 0x1_0000) % 0x100 == (q / 0x1_0000)
        % 0x100 && ((p / 0x100) % 0x100 < (q / 0x100) % 0x100 || ((p / 0x100) % 0x100 == (q
        / 0x100) % 0x100 && p % 0x100 < q % 0x100))))))) by (bit_vector);
}

/// The sortkeys of two EVRs compare as the EVRs do in RPM order: by
/// numeric epoch (empty or unparseable epochs count as 0), then by version,
/// then by release. Two EVRs have equal keys exactly when they are equal in
/// RPM order.
pub proof fn law_evr_key_order(
    e1: Seq<u8>,
    v1: Seq<u8>,
    r1: Seq<u8>,
    e2: Seq<u8>,
    v2: Seq<u8>,
    r2: Seq<u8>,
)
    ensures
        lex_order(evr_key(e1, v1, r1), evr_key(e2, v2, r2)) == evr_order(e1, v1, r1, e2, v2, r2),
        evr_key(e1, v1, r1) == evr_key(e2, v2, r2) <==> evr_order(e1, v1, r1, e2, v2, r2) == 0,
{
    lemma_lex_order_basics(evr_key(e1, v1, r1), evr_key(e2, v2, r2));
    let p = epoch_value(e1);
    let q = epoch_value(e2);
    let x = version_key(r1);
    let y = version_key(r2);
    assert(evr_key(e1, v1, r1) == be_bytes(p) + (version_key(v1) + x));
    assert(evr_key(e2, v2, r2) == be_bytes(q) + (version_key(v2) + y));
    lemma_be_bytes_order(p, q, version_key(v1) + x, version_key(v2) + y);
    if p == q {
        lemma_version_key_order(v1, v2, x, y);
        if rpm_version_order(v1, v2) == 0 {
            assert(version_key(v1) == version_key(v2));
            lemma_lex_order_common_prefix(version_key(v1), x, y);
            lemma_version_key_order(r1, r2, Seq::<u8>::empty(), Seq::<u8>::empty());
            assert(x == version_tokens(r1) + seq![MARK_END] + Seq::<u8>::empty());
            assert(y == version_tokens(r2) + seq![MARK_END] + Seq::<u8>::empty());
            if rpm_version_order(r1, r2) == 0 {
                assert(x == y);
                lemma_lex_order_basics(x, y);
            }
        }
    }
}

/// The sortkeys of two EVR strings (such as `1:2.3.4-5`) compare as the
/// strings do in RPM order.
pub proof fn law_evr_string_key_order(s1: Seq<u8>, s2: Seq<u8>)
    ensures
        lex_order(evr_string_key(s1), evr_string_key(s2)) == evr_string_order(s1, s2),
{
    let (e1, v1, r1) = split_evr(s1);
    let (e2, v2, r2) = split_evr(s2);
    law_evr_key_order(e1, v1, r1, e2, v2, r2);
}

/// The sortkeys of two versions compare as the versions do in RPM order;
/// in particular the keys are equal exactly when the versions are equal in
/// that order.
pub proof fn law_version_key_order(a: Seq<u8>, b: Seq<u8>)
    ensures
        lex_order(version_key(a), version_key(b)) == rpm_version_order(a, b),
        version_key(a) == version_key(b) <==> rpm_version_order(a, b) == 0,
{
    lemma_version_key_order(a, b, Seq::<u8>::empty(), Seq::<u8>::empty());
    assert(version_key(a) == version_tokens(a) + seq![MARK_END] + Seq::<u8>::empty());
    assert(version_key(b) == version_tokens(b) + seq![MARK_END] + Seq::<u8>::empty());
    lemma_lex_order_basics(version_key(a), version_key(b));
}

/// A higher epoch dominates: the key of the EVR with the smaller numeric
/// epoch sorts first, whatever the versions and releases.
pub proof fn law_epoch_dominates(
    e1: Seq<u8>,
    v1: Seq<u8>,
    r1: Seq<u8>,
    e2: Seq<u8>,
    v2: Seq<u8>,
    r2: Seq<u8>,
)
    requires
        epoch_value(e1) < epoch_value(e2),
    ensures
        lex_order(evr_key(e1, v1, r1), evr_key(e2, v2, r2)) == -1,
{
    let x = version_key(v1) + version_key(r1);
    let y = version_key(v2) + version_key(r2);
    assert(evr_key(e1, v1, r1) == be_bytes(epoch_value(e1)) + x);
    assert(evr_key(e2, v2, r2) == be_bytes(epoch_value(e2)) + y);
    lemma_be_bytes_order(epoch_value(e1), epoch_value(e2), x, y);
}

} // verus!
