//! Byte classes and segment runs of an RPM version string.
//!
//! Only ASCII letters and digits carry meaning in a version; `~` and `^` are
//! markers; every other byte (including all bytes of multi-byte UTF-8
//! characters) separates segments.
use vstd::prelude::*;

verus! {

/// The byte `~`.
pub const TILDE: u8 = 0x7e;

/// The byte `^`.
pub const CARET: u8 = 0x5e;

/// The byte `0`.
pub const ZERO: u8 = 0x30;

/// True for the ASCII decimal digits `0`..`9`.
pub open spec fn is_digit(b: u8) -> bool {
    0x30 <= b <= 0x39
}

/// True for the ASCII letters `A`..`Z` and `a`..`z`.
pub open spec fn is_alpha(b: u8) -> bool {
    (0x41 <= b <= 0x5a) || (0x61 <= b <= 0x7a)
}

/// True for ASCII letters and digits.
pub open spec fn is_alnum(b: u8) -> bool {
    is_digit(b) || is_alpha(b)
}

/// True for the bytes that only separate segments: anything that is neither
/// an ASCII letter or digit, nor `~`, nor `^`.
pub open spec fn is_separator(b: u8) -> bool {
    !is_alnum(b) && b != TILDE && b != CARET
}

/// Number of leading digits of `s`.
pub open spec fn digit_run(s: Seq<u8>) -> nat
    decreases s.len(),
{
    if s.len() > 0 && is_digit(s[0]) {
        1 + digit_run(s.drop_first())
    } else {
        0
    }
}

/// Number of leading ASCII letters of `s`.
pub open spec fn alpha_run(s: Seq<u8>) -> nat
    decreases s.len(),
{
    if s.len() > 0 && is_alpha(s[0]) {
        1 + alpha_run(s.drop_first())
    } else {
        0
    }
}

/// `s` without its leading `0` bytes.
pub open spec fn strip_zeros(s: Seq<u8>) -> Seq<u8>
    decreases s.len(),
{
    if s.len() > 0 && s[0] == ZERO {
        strip_zeros(s.drop_first())
    } else {
        s
    }
}

/// `s` without its leading separator bytes.
pub open spec fn skip_separators(s: Seq<u8>) -> Seq<u8>
    decreases s.len(),
{
    if s.len() > 0 && is_separator(s[0]) {
        skip_separators(s.drop_first())
    } else {
        s
    }
}

/// True when every byte of `s` is an ASCII digit.
pub open spec fn all_digits(s: Seq<u8>) -> bool {
    forall|i: int| 0 <= i < s.len() ==> is_digit(#[trigger] s[i])
}

/// True when every byte of `s` is an ASCII letter.
pub open spec fn all_alpha(s: Seq<u8>) -> bool {
    forall|i: int| 0 <= i < s.len() ==> is_alpha(#[trigger] s[i])
}

/// The run of digits is at most as long as the sequence, and `n` is that run
/// exactly when the first `n` bytes are digits and byte `n` (if any) is not.
pub proof fn lemma_digit_run(s: Seq<u8>, n: int)
    ensures
        digit_run(s) <= s.len(),
        all_digits(s.take(digit_run(s) as int)),
        digit_run(s) < s.len() ==> !is_digit(s[digit_run(s) as int]),
        (0 <= n <= s.len() && all_digits(s.take(n)) && (n == s.len() || !is_digit(s[n])))
            ==> digit_run(s) == n,
    decreases s.len(),
{
    if s.len() > 0 && is_digit(s[0]) {
        let t = s.drop_first();
        lemma_digit_run(t, n - 1);
        assert forall|i: int| 0 <= i < digit_run(s) implies is_digit(
            #[trigger] s.take(digit_run(s) as int)[i],
        ) by {
            if i > 0 {
                assert(s.take(digit_run(s) as int)[i] == t.take(digit_run(t) as int)[i - 1]);
            }
        }
        if 0 <= n <= s.len() && all_digits(s.take(n)) && (n == s.len() || !is_digit(s[n])) {
            if n == 0 {
                assert(!is_digit(s[0]));
            } else {
                assert forall|i: int| 0 <= i < n - 1 implies is_digit(#[trigger] t.take(n - 1)[i]) by {
                    assert(t.take(n - 1)[i] == s.take(n)[i + 1]);
                }
            }
        }
    } else {
        if 0 < n <= s.len() && all_digits(s.take(n)) {
            assert(is_digit(s.take(n)[0]));
        }
    }
}

/// The run of letters is at most as long as the sequence, and `n` is that run
/// exactly when the first `n` bytes are letters and byte `n` (if any) is not.
pub proof fn lemma_alpha_run(s: Seq<u8>, n: int)
    ensures
        alpha_run(s) <= s.len(),
        all_alpha(s.take(alpha_run(s) as int)),
        alpha_run(s) < s.len() ==> !is_alpha(s[alpha_run(s) as int]),
        (0 <= n <= s.len() && all_alpha(s.take(n)) && (n == s.len() || !is_alpha(s[n])))
            ==> alpha_run(s) == n,
    decreases s.len(),
{
    if s.len() > 0 && is_alpha(s[0]) {
        let t = s.drop_first();
        lemma_alpha_run(t, n - 1);
        assert forall|i: int| 0 <= i < alpha_run(s) implies is_alpha(
            #[trigger] s.take(alpha_run(s) as int)[i],
        ) by {
            if i > 0 {
                assert(s.take(alpha_run(s) as int)[i] == t.take(alpha_run(t) as int)[i - 1]);
            }
        }
        if 0 <= n <= s.len() && all_alpha(s.take(n)) && (n == s.len() || !is_alpha(s[n])) {
            if n == 0 {
                assert(!is_alpha(s[0]));
            } else {
                assert forall|i: int| 0 <= i < n - 1 implies is_alpha(#[trigger] t.take(n - 1)[i]) by {
                    assert(t.take(n - 1)[i] == s.take(n)[i + 1]);
                }
            }
        }
    } else {
        if 0 < n <= s.len() && all_alpha(s.take(n)) {
            assert(is_alpha(s.take(n)[0]));
        }
    }
}

/// Stripping the leading zeros of `s` leaves the suffix of `s` that starts at
/// its first byte other than `0`; `k` is that position exactly when the bytes
/// before it are all `0` and byte `k` (if any) is not.
pub proof fn lemma_strip_zeros(s: Seq<u8>, k: int)
    ensures
        exists|j: int| 0 <= j <= s.len() && strip_zeros(s) == s.skip(j),
        (0 <= k <= s.len() && (forall|i: int| 0 <= i < k ==> s[i] == ZERO) && (k == s.len()
            || s[k] != ZERO)) ==> strip_zeros(s) == s.skip(k),
    decreases s.len(),
{
    if s.len() > 0 && s[0] == ZERO {
        let t = s.drop_first();
        lemma_strip_zeros(t, k - 1);
        let j = choose|j: int| 0 <= j <= t.len() && strip_zeros(t) == t.skip(j);
        assert(t.skip(j) == s.skip(j + 1));
        if 0 <= k <= s.len() && (forall|i: int| 0 <= i < k ==> s[i] == ZERO) && (k == s.len()
            || s[k] != ZERO) {
            assert(k > 0);
            assert(t.skip(k - 1) == s.skip(k));
        }
    } else {
        assert(s.skip(0) == s);
        if 0 < k <= s.len() && (forall|i: int| 0 <= i < k ==> s[i] == ZERO) {
            assert(s[0] == ZERO);
        }
    }
}

/// Skipping separators leaves a suffix of `s`; `k` is that position exactly
/// when the bytes before it are separators and byte `k` (if any) is not.
pub proof fn lemma_skip_separators(s: Seq<u8>, k: int)
    ensures
        exists|j: int| 0 <= j <= s.len() && skip_separators(s) == s.skip(j),
        skip_separators(s).len() <= s.len(),
        skip_separators(s).len() > 0 ==> !is_separator(skip_separators(s)[0]),
        (0 <= k <= s.len() && (forall|i: int| 0 <= i < k ==> is_separator(#[trigger] s[i])) && (k
            == s.len() || !is_separator(s[k]))) ==> skip_separators(s) == s.skip(k),
    decreases s.len(),
{
    if s.len() > 0 && is_separator(s[0]) {
        let t = s.drop_first();
        lemma_skip_separators(t, k - 1);
        let j = choose|j: int| 0 <= j <= t.len() && skip_separators(t) == t.skip(j);
        assert(t.skip(j) == s.skip(j + 1));
        if 0 <= k <= s.len() && (forall|i: int| 0 <= i < k ==> is_separator(#[trigger] s[i])) && (k
            == s.len() || !is_separator(s[k])) {
            assert(k > 0);
            assert forall|i: int| 0 <= i < k - 1 implies is_separator(#[trigger] t[i]) by {
                assert(t[i] == s[i + 1]);
            }
            assert(t.skip(k - 1) == s.skip(k));
        }
    } else {
        assert(s.skip(0) == s);
        if 0 < k <= s.len() && (forall|i: int| 0 <= i < k ==> is_separator(#[trigger] s[i])) {
            assert(is_separator(s[0]));
        }
    }
}

/// Tests whether a byte is an ASCII decimal digit.
pub fn byte_is_digit(b: u8) -> (r: bool)
    ensures
        r == is_digit(b),
{
    0x30 <= b && b <= 0x39
}

/// Tests whether a byte is an ASCII letter.
pub fn byte_is_alpha(b: u8) -> (r: bool)
    ensures
        r == is_alpha(b),
{
    (0x41 <= b && b <= 0x5a) || (0x61 <= b && b <= 0x7a)
}

/// Tests whether a byte only separates segments.
pub fn byte_is_separator(b: u8) -> (r: bool)
    ensures
        r == is_separator(b),
{
    !(byte_is_digit(b) || byte_is_alpha(b) || b == TILDE || b == CARET)
}

} // verus!
