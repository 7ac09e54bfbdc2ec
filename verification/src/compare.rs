//! Comparing versions and EVR strings in RPM order.
use vstd::prelude::*;
use vstd::string::StringSliceAdditionalSpecFns;

use crate::ascii::{
    alpha_run, byte_is_alpha, byte_is_digit, byte_is_separator, digit_run, is_alpha, is_digit,
    is_separator, lemma_alpha_run, lemma_digit_run, lemma_skip_separators, lemma_strip_zeros,
    skip_separators, strip_zeros, CARET, TILDE, ZERO,
};
use crate::evr::{parse_epoch, parse_values};
use crate::laws::{evr_order, evr_string_order};
use crate::lexical::{lemma_lex_order_basics, lex_order};
use crate::version_order::{rpm_version_order, starts_with};

verus! {

/// The first position at or after `i` that is not a separator.
fn skip_separator_bytes(s: &[u8], i: usize) -> (k: usize)
    requires
        i <= s@.len(),
    ensures
        i <= k <= s@.len(),
        s@.skip(k as int) == skip_separators(s@.skip(i as int)),
{
    let mut k = i;
    while k < s.len() && byte_is_separator(s[k])
        invariant
            i <= k <= s@.len(),
            forall|m: int| i <= m < k ==> is_separator(#[trigger] s@[m]),
        decreases s@.len() - k,
    {
        k += 1;
    }
    proof {
        let t = s@.skip(i as int);
        assert forall|m: int| 0 <= m < k - i implies is_separator(#[trigger] t[m]) by {
            assert(t[m] == s@[i + m]);
        }
        lemma_skip_separators(t, k - i);
        assert(t.skip(k - i) == s@.skip(k as int));
    }
    k
}

/// The end of the run of digits that starts at `i`.
fn digits_end(s: &[u8], i: usize) -> (k: usize)
    requires
        i <= s@.len(),
    ensures
        i <= k <= s@.len(),
        k - i == digit_run(s@.skip(i as int)),
{
    let mut k = i;
    while k < s.len() && byte_is_digit(s[k])
        invariant
            i <= k <= s@.len(),
            forall|m: int| i <= m < k ==> is_digit(#[trigger] s@[m]),
        decreases s@.len() - k,
    {
        k += 1;
    }
    proof {
        let t = s@.skip(i as int);
        assert forall|m: int| 0 <= m < k - i implies is_digit(#[trigger] t.take(k - i)[m]) by {
            assert(t.take(k - i)[m] == s@[i + m]);
        }
        lemma_digit_run(t, k - i);
    }
    k
}

/// The end of the run of letters that starts at `i`.
fn letters_end(s: &[u8], i: usize) -> (k: usize)
    requires
        i <= s@.len(),
    ensures
        i <= k <= s@.len(),
        k - i == alpha_run(s@.skip(i as int)),
{
    let mut k = i;
    while k < s.len() && byte_is_alpha(s[k])
        invariant
            i <= k <= s@.len(),
            forall|m: int| i <= m < k ==> is_alpha(#[trigger] s@[m]),
        decreases s@.len() - k,
    {
        k += 1;
    }
    proof {
        let t = s@.skip(i as int);
        assert forall|m: int| 0 <= m < k - i implies is_alpha(#[trigger] t.take(k - i)[m]) by {
            assert(t.take(k - i)[m] == s@[i + m]);
        }
        lemma_alpha_run(t, k - i);
    }
    k
}

/// The first position in `i..end` whose byte is not `0` (`end` if none).
fn zeros_end(s: &[u8], i: usize, end: usize) -> (k: usize)
    requires
        i <= end <= s@.len(),
    ensures
        i <= k <= end,
        s@.subrange(k as int, end as int) == strip_zeros(s@.subrange(i as int, end as int)),
{
    let mut k = i;
    while k < end && s[k] == ZERO
        invariant
            i <= k <= end <= s@.len(),
            forall|m: int| i <= m < k ==> s@[m] == ZERO,
        decreases end - k,
    {
        k += 1;
    }
    proof {
        let t = s@.subrange(i as int, end as int);
        assert forall|m: int| 0 <= m < k - i implies t[m] == ZERO by {
            assert(t[m] == s@[i + m]);
        }
        if k < end {
            assert(t[k - i] == s@[k as int]);
        }
        lemma_strip_zeros(t, k - i);
        assert(t.skip(k - i) == s@.subrange(k as int, end as int));
    }
    k
}

/// Byte-by-byte comparison of `a[ia..ea]` and `b[ib..eb]`.
fn compare_ranges(a: &[u8], ia: usize, ea: usize, b: &[u8], ib: usize, eb: usize) -> (c: i32)
    requires
        ia <= ea <= a@.len(),
        ib <= eb <= b@.len(),
    ensures
        c == lex_order(a@.subrange(ia as int, ea as int), b@.subrange(ib as int, eb as int)),
{
    let ghost u = a@.subrange(ia as int, ea as int);
    let ghost v = b@.subrange(ib as int, eb as int);
    let mut k: usize = 0;
    assert(u.skip(0) == u && v.skip(0) == v);
    loop
        invariant
            u == a@.subrange(ia as int, ea as int),
            v == b@.subrange(ib as int, eb as int),
            ia <= ea <= a@.len(),
            ib <= eb <= b@.len(),
            k <= u.len(),
            k <= v.len(),
            lex_order(u, v) == lex_order(u.skip(k as int), v.skip(k as int)),
        decreases u.len() - k,
    {
        let at_end_a = k >= ea - ia;
        let at_end_b = k >= eb - ib;
        if at_end_a || at_end_b {
            if at_end_a && at_end_b {
                return 0;
            } else if at_end_a {
                return -1;
            } else {
                return 1;
            }
        }
        let x = a[ia + k];
        let y = b[ib + k];
        assert(u.skip(k as int)[0] == x && v.skip(k as int)[0] == y);
        if x < y {
            return -1;
        }
        if x > y {
            return 1;
        }
        assert(u.skip(k as int).drop_first() == u.skip(k + 1));
        assert(v.skip(k as int).drop_first() == v.skip(k + 1));
        k += 1;
    }
}

/// Compare two version (or release) strings in RPM order, as `rpmvercmp`
/// does: -1, 0 or 1 as `a` is older than, the same as, or newer than `b`.
pub fn compare_versions(a: &str, b: &str) -> (c: i32)
    ensures
        c == rpm_version_order(a.spec_bytes(), b.spec_bytes()),
{
    let x = a.as_bytes();
    let y = b.as_bytes();
    let mut i: usize = 0;
    let mut j: usize = 0;
    assert(x@.skip(0) == x@ && y@.skip(0) == y@);
    loop
        invariant
            x@ == a.spec_bytes(),
            y@ == b.spec_bytes(),
            i <= x@.len(),
            j <= y@.len(),
            rpm_version_order(x@, y@) == rpm_version_order(x@.skip(i as int), y@.skip(j as int)),
        decreases x@.len() - i + y@.len() - j,
    {
        let ghost i0 = i;
        let ghost j0 = j;
        i = skip_separator_bytes(x, i);
        j = skip_separator_bytes(y, j);
        let ghost t = x@.skip(i as int);
        let ghost u = y@.skip(j as int);
        proof {
            lemma_skip_separators(x@.skip(i0 as int), 0);
            lemma_skip_separators(y@.skip(j0 as int), 0);
        }
        assert(rpm_version_order(x@, y@) == rpm_version_order(x@.skip(i0 as int), y@.skip(
            j0 as int,
        )));
        let x_len = x.len();
        let y_len = y.len();
        let x_tilde = i < x_len && x[i] == TILDE;
        let y_tilde = j < y_len && y[j] == TILDE;
        assert(x_tilde == starts_with(t, TILDE) && y_tilde == starts_with(u, TILDE));
        if x_tilde || y_tilde {
            if !x_tilde {
                return 1;
            }
            if !y_tilde {
                return -1;
            }
            assert(t.drop_first() == x@.skip(i + 1) && u.drop_first() == y@.skip(j + 1));
            i += 1;
            j += 1;
            continue;
        }
        let x_caret = i < x_len && x[i] == CARET;
        let y_caret = j < y_len && y[j] == CARET;
        assert(x_caret == starts_with(t, CARET) && y_caret == starts_with(u, CARET));
        if x_caret || y_caret {
            if i >= x_len {
                return -1;
            }
            if j >= y_len {
                return 1;
            }
            if !x_caret {
                return 1;
            }
            if !y_caret {
                return -1;
            }
            assert(t.drop_first() == x@.skip(i + 1) && u.drop_first() == y@.skip(j + 1));
            i += 1;
            j += 1;
            continue;
        }
        if i >= x_len || j >= y_len {
            if i >= x_len && j >= y_len {
                return 0;
            } else if i >= x_len {
                return -1;
            } else {
                return 1;
            }
        }
        assert(t[0] == x[i as int] && u[0] == y[j as int]);
        if byte_is_digit(x[i]) {
            let ei = digits_end(x, i);
            let ej = digits_end(y, j);
            if ej == j {
                return 1;
            }
            let zi = zeros_end(x, i, ei);
            let zj = zeros_end(y, j, ej);
            assert(t.take(ei - i) == x@.subrange(i as int, ei as int));
            assert(u.take(ej - j) == y@.subrange(j as int, ej as int));
            let li = ei - zi;
            let lj = ej - zj;
            if li > lj {
                return 1;
            }
            if li < lj {
                return -1;
            }
            let c = compare_ranges(x, zi, ei, y, zj, ej);
            if c != 0 {
                return c;
            }
            assert(t.skip(ei - i) == x@.skip(ei as int) && u.skip(ej - j) == y@.skip(ej as int));
            i = ei;
            j = ej;
        } else {
            assert(is_alpha(t[0]));
            let ei = letters_end(x, i);
            let ej = letters_end(y, j);
            if ej == j {
                return -1;
            }
            assert(t.take(ei - i) == x@.subrange(i as int, ei as int));
            assert(u.take(ej - j) == y@.subrange(j as int, ej as int));
            let c = compare_ranges(x, i, ei, y, j, ej);
            if c != 0 {
                return c;
            }
            assert(t.skip(ei - i) == x@.skip(ei as int) && u.skip(ej - j) == y@.skip(ej as int));
            i = ei;
            j = ej;
        }
    }
}

/// Compare two EVRs given as epoch, version and release strings in RPM
/// order: the numeric epochs first (empty or unparseable ones count as 0),
/// then the versions, then the releases. Returns -1, 0 or 1.
pub fn compare_evr_values(
    e1: &str,
    v1: &str,
    r1: &str,
    e2: &str,
    v2: &str,
    r2: &str,
) -> (c: i32)
    ensures
        c == evr_order(
            e1.spec_bytes(),
            v1.spec_bytes(),
            r1.spec_bytes(),
            e2.spec_bytes(),
            v2.spec_bytes(),
            r2.spec_bytes(),
        ),
{
    let p = match parse_epoch(e1) {
        Some(n) => n,
        None => 0,
    };
    let q = match parse_epoch(e2) {
        Some(n) => n,
        None => 0,
    };
    if p < q {
        return -1;
    }
    if p > q {
        return 1;
    }
    let c = compare_versions(v1, v2);
    if c != 0 {
        return c;
    }
    compare_versions(r1, r2)
}

/// Compare two EVR strings (such as `"1:2.3.4-5"`) using RPM's version
/// comparison algorithm. Returns -1, 0, or 1 if `evr1` is less than, equal
/// to, or greater than `evr2`.
pub fn evr_compare(evr1: &str, evr2: &str) -> (c: i32)
    ensures
        c == evr_string_order(evr1.spec_bytes(), evr2.spec_bytes()),
{
    let (e1, v1, r1) = parse_values(evr1);
    let (e2, v2, r2) = parse_values(evr2);
    compare_evr_values(e1, v1, r1, e2, v2, r2)
}

/// Byte-by-byte comparison of two strings: -1, 0 or 1.
pub fn compare_strs(a: &str, b: &str) -> (c: i32)
    ensures
        c == lex_order(a.spec_bytes(), b.spec_bytes()),
{
    let x = a.as_bytes();
    let y = b.as_bytes();
    let c = compare_ranges(x, 0, x.len(), y, 0, y.len());
    assert(x@.subrange(0, x@.len() as int) == x@);
    assert(y@.subrange(0, y@.len() as int) == y@);
    c
}

/// Whether two strings are equal.
pub fn str_equal(a: &str, b: &str) -> (r: bool)
    ensures
        r == (a@ == b@),
{
    broadcast use vstd::utf8::group_utf8_lib;

    let c = compare_strs(a, b);
    proof {
        lemma_lex_order_basics(a.spec_bytes(), b.spec_bytes());
        if a.spec_bytes() == b.spec_bytes() {
            assert(vstd::utf8::decode_utf8(vstd::utf8::encode_utf8(a@)) == a@);
            assert(vstd::utf8::decode_utf8(vstd::utf8::encode_utf8(b@)) == b@);
        }
    }
    c == 0
}

} // verus!
