//! How the sortkey of a version is built from its pieces: separators leave
//! no trace, leading zeros count for nothing, `~` and `^` suffixes sort
//! before and after the bare version, and the version key decides the EVR
//! key order whenever two version keys differ.
use vstd::prelude::*;

use crate::ascii::{
    digit_run, alpha_run, is_alpha, is_digit, is_separator, lemma_alpha_run, lemma_digit_run,
    strip_zeros, CARET, TILDE, ZERO,
};
use crate::laws::{law_version_key_order, lemma_version_key_order};
use crate::lexical::{lemma_lex_order_common_prefix, lex_order};
use crate::nevra::DOT;
use crate::sortkey::{
    be_bytes, evr_key, version_key, version_tokens, MARK_CARET, MARK_END, MARK_TILDE,
};
use crate::evr::epoch_value;

verus! {

/// True when joining `p` and `s` merges no segment across the join: the
/// last byte of `p` and the first of `s` are not both digits, nor both
/// letters.
pub open spec fn joins_cleanly(p: Seq<u8>, s: Seq<u8>) -> bool {
    p.len() == 0 || s.len() == 0 || !((is_digit(p.last()) && is_digit(s[0])) || (is_alpha(p.last())
        && is_alpha(s[0])))
}

/// True when every byte of `c` only separates segments.
pub open spec fn all_separators(c: Seq<u8>) -> bool {
    forall|i: int| 0 <= i < c.len() ==> is_separator(#[trigger] c[i])
}

/// The tokens of a clean join are the tokens of its two parts.
pub proof fn lemma_tokens_concat(p: Seq<u8>, s: Seq<u8>)
    requires
        joins_cleanly(p, s),
    ensures
        version_tokens(p + s) == version_tokens(p) + version_tokens(s),
    decreases p.len(),
{
    let w = p + s;
    if p.len() == 0 {
        assert(w == s);
        assert(version_tokens(p) + version_tokens(s) == version_tokens(s));
    } else {
        assert(w[0] == p[0]);
        if is_digit(p[0]) || is_alpha(p[0]) {
            let n = if is_digit(p[0]) {
                digit_run(p) as int
            } else {
                alpha_run(p) as int
            };
            lemma_digit_run(p, 0);
            lemma_alpha_run(p, 0);
            assert(w.take(n) == p.take(n));
            if n < p.len() {
                assert(w[n] == p[n]);
            } else if s.len() > 0 {
                assert(w[n] == s[0]);
                assert(p.last() == p.take(n)[n - 1]);
            }
            if is_digit(p[0]) {
                lemma_digit_run(w, n);
            } else {
                lemma_alpha_run(w, n);
            }
            assert(w.skip(n) == p.skip(n) + s);
            let p1 = p.skip(n);
            if p1.len() > 0 {
                assert(p1.last() == p.last());
            }
            lemma_tokens_concat(p1, s);
        } else {
            let p1 = p.drop_first();
            assert(w.drop_first() == p1 + s);
            if p1.len() > 0 {
                assert(p1.last() == p.last());
            }
            lemma_tokens_concat(p1, s);
        }
    }
}

/// Separators in front of a version leave no trace in its tokens.
pub proof fn lemma_tokens_leading_separators(c: Seq<u8>, s: Seq<u8>)
    requires
        all_separators(c),
    ensures
        version_tokens(c + s) == version_tokens(s),
    decreases c.len(),
{
    if c.len() == 0 {
        assert(c + s == s);
    } else {
        assert((c + s)[0] == c[0]);
        assert(is_separator(c[0]));
        assert((c + s).drop_first() == c.drop_first() + s);
        assert forall|i: int| 0 <= i < c.drop_first().len() implies is_separator(
            #[trigger] c.drop_first()[i],
        ) by {
            assert(c.drop_first()[i] == c[i + 1]);
        }
        lemma_tokens_leading_separators(c.drop_first(), s);
    }
}

/// Separators are interchangeable: any non-empty run of them between two
/// parts gives the same key, and separators before or after a version leave
/// its key unchanged.
pub proof fn law_separators_interchangeable(
    p: Seq<u8>,
    c: Seq<u8>,
    d: Seq<u8>,
    q: Seq<u8>,
    s: Seq<u8>,
)
    requires
        c.len() > 0,
        d.len() > 0,
        all_separators(c),
        all_separators(d),
    ensures
        version_key(p + c + q) == version_key(p + d + q),
        version_key(c + s) == version_key(s),
        version_key(s + c) == version_key(s),
{
    assert(is_separator(c[0]) && is_separator(d[0]));
    assert(p + c + q == p + (c + q));
    assert(p + d + q == p + (d + q));
    assert((c + q)[0] == c[0]);
    assert((d + q)[0] == d[0]);
    lemma_tokens_concat(p, c + q);
    lemma_tokens_concat(p, d + q);
    lemma_tokens_leading_separators(c, q);
    lemma_tokens_leading_separators(d, q);
    lemma_tokens_leading_separators(c, s);
    lemma_tokens_concat(s, c);
    lemma_tokens_leading_separators(c, Seq::<u8>::empty());
    assert(c + Seq::<u8>::empty() == c);
    assert(version_tokens(s) + Seq::<u8>::empty() == version_tokens(s));
}

/// The key of two versions joined by a dot is the key of the first without
/// its end byte, followed by the key of the second.
pub proof fn law_dot_join(a: Seq<u8>, b: Seq<u8>)
    ensures
        version_key(a + seq![DOT] + b) == version_tokens(a) + version_key(b),
{
    let c = seq![DOT];
    assert(a + c + b == a + (c + b));
    assert((c + b)[0] == DOT);
    lemma_tokens_concat(a, c + b);
    lemma_tokens_leading_separators(c, b);
}

/// A leading zero never changes the key: `p0q` and `pq` have the same key
/// when `q` starts with a digit and `p` does not end with one.
pub proof fn law_leading_zero(p: Seq<u8>, q: Seq<u8>)
    requires
        p.len() == 0 || !is_digit(p.last()),
        q.len() > 0,
        is_digit(q[0]),
    ensures
        version_key(p + seq![ZERO] + q) == version_key(p + q),
{
    let z = seq![ZERO] + q;
    assert(p + seq![ZERO] + q == p + z);
    assert(z[0] == ZERO);
    lemma_tokens_concat(p, z);
    lemma_tokens_concat(p, q);
    assert(z.drop_first() == q);
    lemma_digit_run(q, 0);
    let n = digit_run(q) as int;
    assert(digit_run(z) == 1 + n);
    assert(z.take(1 + n).drop_first() == q.take(n));
    assert(z.take(1 + n)[0] == ZERO);
    assert(strip_zeros(z.take(1 + n)) == strip_zeros(q.take(n)));
    assert(z.skip(1 + n) == q.skip(n));
}

/// A `~` suffix sorts before the bare version, and a `^` suffix after it.
pub proof fn law_tilde_before_caret_after(a: Seq<u8>, b: Seq<u8>)
    ensures
        lex_order(version_key(a + seq![TILDE] + b), version_key(a)) == -1,
        lex_order(version_key(a), version_key(a + seq![CARET] + b)) == -1,
{
    let ct = seq![TILDE] + b;
    let cc = seq![CARET] + b;
    assert(a + seq![TILDE] + b == a + ct);
    assert(a + seq![CARET] + b == a + cc);
    assert(ct[0] == TILDE && ct.drop_first() == b);
    assert(cc[0] == CARET && cc.drop_first() == b);
    lemma_tokens_concat(a, ct);
    lemma_tokens_concat(a, cc);
    let ta = version_tokens(a);
    let tail_t = seq![MARK_TILDE] + version_tokens(b) + seq![MARK_END];
    let tail_c = seq![MARK_CARET] + version_tokens(b) + seq![MARK_END];
    assert(version_key(a + ct) == ta + tail_t);
    assert(version_key(a + cc) == ta + tail_c);
    assert(version_key(a) == ta + seq![MARK_END]);
    lemma_lex_order_common_prefix(ta, tail_t, seq![MARK_END]);
    lemma_lex_order_common_prefix(ta, seq![MARK_END], tail_c);
    assert(tail_t[0] == MARK_TILDE);
    assert(tail_c[0] == MARK_CARET);
}

/// When two versions have different keys, those keys decide the order of
/// the EVR keys with the same epoch, whatever the releases.
pub proof fn law_version_key_decides(
    e: Seq<u8>,
    v1: Seq<u8>,
    r1: Seq<u8>,
    v2: Seq<u8>,
    r2: Seq<u8>,
)
    requires
        version_key(v1) != version_key(v2),
    ensures
        lex_order(evr_key(e, v1, r1), evr_key(e, v2, r2)) == lex_order(
            version_key(v1),
            version_key(v2),
        ),
{
    law_version_key_order(v1, v2);
    lemma_version_key_order(v1, v2, version_key(r1), version_key(r2));
    let p = be_bytes(epoch_value(e));
    assert(evr_key(e, v1, r1) == p + (version_key(v1) + version_key(r1)));
    assert(evr_key(e, v2, r2) == p + (version_key(v2) + version_key(r2)));
    assert(version_key(v1) + version_key(r1) == version_tokens(v1) + seq![MARK_END] + version_key(
        r1,
    ));
    assert(version_key(v2) + version_key(r2) == version_tokens(v2) + seq![MARK_END] + version_key(
        r2,
    ));
    lemma_lex_order_common_prefix(
        p,
        version_key(v1) + version_key(r1),
        version_key(v2) + version_key(r2),
    );
}

} // verus!
