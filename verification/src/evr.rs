//! Splitting an EVR string (`epoch:version-release`) into its parts, and the
//! numeric value of an epoch.
use vstd::prelude::*;
use vstd::string::StringSliceAdditionalSpecFns;

use crate::ascii::{all_digits, byte_is_digit, is_digit, ZERO};

verus! {

broadcast use vstd::utf8::group_utf8_lib;

/// The byte `:` that ends the epoch.
pub const COLON: u8 = 0x3a;

/// The byte `-` that starts the release.
pub const DASH: u8 = 0x2d;

/// The byte `+` that may lead an unsigned number.
pub const PLUS: u8 = 0x2b;

/// The position of the first byte `b` in `s`, if there is one.
pub open spec fn first_position(s: Seq<u8>, b: u8) -> Option<int>
    decreases s.len(),
{
    if s.len() == 0 {
        None
    } else if s[0] == b {
        Some(0)
    } else {
        match first_position(s.drop_first(), b) {
            Some(i) => Some(i + 1),
            None => None,
        }
    }
}

/// The position of the last byte `b` in `s`, if there is one.
pub open spec fn last_position(s: Seq<u8>, b: u8) -> Option<int>
    decreases s.len(),
{
    if s.len() == 0 {
        None
    } else if s.last() == b {
        Some(s.len() - 1)
    } else {
        last_position(s.drop_last(), b)
    }
}

/// The epoch, version and release of an EVR string `s` (its bytes): the epoch
/// is what precedes the first `:` (empty when there is none); in what
/// follows, the version is what precedes the last `-`, and the release what
/// follows it (empty when there is none), as RPM splits an EVR.
pub open spec fn split_evr(s: Seq<u8>) -> (Seq<u8>, Seq<u8>, Seq<u8>) {
    let (e, vr) = match first_position(s, COLON) {
        Some(i) => (s.take(i), s.skip(i + 1)),
        None => (Seq::<u8>::empty(), s),
    };
    match last_position(vr, DASH) {
        Some(j) => (e, vr.take(j), vr.skip(j + 1)),
        None => (e, vr, Seq::<u8>::empty()),
    }
}

/// The number written in decimal by the digits `s`.
pub open spec fn decimal_value(s: Seq<u8>) -> nat
    decreases s.len(),
{
    if s.len() == 0 {
        0
    } else {
        decimal_value(s.drop_last()) * 10 + (s.last() - ZERO) as nat
    }
}

/// `s` without the `+` that may lead it.
pub open spec fn unsigned_digits(s: Seq<u8>) -> Seq<u8> {
    if s.len() > 0 && s[0] == PLUS {
        s.drop_first()
    } else {
        s
    }
}

/// The `u32` written by `s` (its bytes) as `str::parse::<u32>` reads it: an
/// optional `+`, then one or more ASCII digits, with a value below 2^32.
pub open spec fn parse_u32_value(s: Seq<u8>) -> Option<u32> {
    let digits = unsigned_digits(s);
    if digits.len() > 0 && all_digits(digits) && decimal_value(digits) <= u32::MAX {
        Some(decimal_value(digits) as u32)
    } else {
        None
    }
}

/// The numeric epoch of the epoch string `e` (its bytes): its `u32` value,
/// or 0 when it is empty or not a `u32`.
pub open spec fn epoch_value(e: Seq<u8>) -> u32 {
    match parse_u32_value(e) {
        Some(n) => n,
        None => 0,
    }
}

/// The position of the first byte `b` of `s`, if any.
fn find_byte(s: &[u8], b: u8) -> (pos: Option<usize>)
    ensures
        match pos {
            Some(i) => i < s@.len() && first_position(s@, b) == Some(i as int),
            None => first_position(s@, b) is None,
        },
{
    let mut i: usize = 0;
    while i < s.len()
        invariant
            i <= s@.len(),
            forall|k: int| 0 <= k < i ==> s@[k] != b,
        decreases s.len() - i,
    {
        if s[i] == b {
            proof {
                lemma_first_position(s@, b, i as int);
            }
            return Some(i);
        }
        i += 1;
    }
    proof {
        lemma_first_position(s@, b, s@.len() as int);
    }
    None
}

/// `k` is the first position of `b` in `s` when the bytes before it differ
/// from `b` and byte `k` is `b`; there is none when no byte of `s` is `b`.
pub proof fn lemma_first_position(s: Seq<u8>, b: u8, k: int)
    requires
        0 <= k <= s.len(),
        forall|i: int| 0 <= i < k ==> s[i] != b,
    ensures
        k < s.len() && s[k] == b ==> first_position(s, b) == Some(k),
        k == s.len() ==> first_position(s, b) is None,
    decreases k,
{
    if k > 0 {
        lemma_first_position(s.drop_first(), b, k - 1);
    }
}

/// The position `k` is followed by a character boundary when byte `k` is
/// ASCII.
proof fn lemma_boundary_after_ascii(bytes: Seq<u8>, k: int)
    requires
        vstd::utf8::valid_utf8(bytes),
        0 <= k < bytes.len(),
        bytes[k] < 0x80,
    ensures
        vstd::utf8::is_char_boundary(bytes, k),
        vstd::utf8::is_char_boundary(bytes, k + 1),
{
    vstd::utf8::is_char_boundary_iff_not_is_continuation_byte(bytes, k);
    if k + 1 < bytes.len() {
        let rest = bytes.subrange(k, bytes.len() as int);
        vstd::utf8::valid_utf8_split(bytes, k);
        assert(rest[0] == bytes[k]);
        // A 1-byte character is followed by the start of another one.
        assert(vstd::utf8::length_of_first_scalar(rest) == 1);
        let tail = vstd::utf8::pop_first_scalar(rest);
        assert(vstd::utf8::valid_utf8(tail));
        assert(tail.len() > 0);
        assert(tail[0] == bytes[k + 1]);
        assert(vstd::utf8::valid_first_scalar(tail));
        assert(!vstd::utf8::is_continuation_byte(bytes[k + 1]));
        vstd::utf8::is_char_boundary_iff_not_is_continuation_byte(bytes, k + 1);
    } else {
        vstd::utf8::is_char_boundary_start_end_of_seq(bytes);
    }
}

/// The position of the last byte `b` of `s`, if any.
fn find_last_byte(s: &[u8], b: u8) -> (pos: Option<usize>)
    ensures
        match pos {
            Some(i) => i < s@.len() && last_position(s@, b) == Some(i as int),
            None => last_position(s@, b) is None,
        },
{
    let mut i: usize = s.len();
    while i > 0
        invariant
            i <= s@.len(),
            forall|k: int| i <= k < s@.len() ==> s@[k] != b,
        decreases i,
    {
        if s[i - 1] == b {
            proof {
                lemma_last_position(s@, b, i - 1);
            }
            return Some(i - 1);
        }
        i -= 1;
    }
    proof {
        lemma_last_position_none(s@, b);
    }
    None
}

/// `k` is the last position of `b` in `s` when byte `k` is `b` and the bytes
/// after it differ from `b`.
pub proof fn lemma_last_position(s: Seq<u8>, b: u8, k: int)
    requires
        0 <= k < s.len(),
        s[k] == b,
        forall|i: int| k < i < s.len() ==> s[i] != b,
    ensures
        last_position(s, b) == Some(k),
    decreases s.len(),
{
    if k < s.len() - 1 {
        assert(s.last() != b);
        assert forall|i: int| k < i < s.drop_last().len() implies s.drop_last()[i] != b by {
            assert(s.drop_last()[i] == s[i]);
        }
        lemma_last_position(s.drop_last(), b, k);
    }
}

/// There is no last position of `b` in `s` when no byte of `s` is `b`.
pub proof fn lemma_last_position_none(s: Seq<u8>, b: u8)
    requires
        forall|i: int| 0 <= i < s.len() ==> s[i] != b,
    ensures
        last_position(s, b) is None,
    decreases s.len(),
{
    if s.len() > 0 {
        assert(s.last() == s[s.len() - 1]);
        assert forall|i: int| 0 <= i < s.drop_last().len() implies s.drop_last()[i] != b by {
            assert(s.drop_last()[i] == s[i]);
        }
        lemma_last_position_none(s.drop_last(), b);
    }
}

/// Splits a string at its byte `i`, which is ASCII, into what precedes and
/// what follows that byte.
fn split_around<'a>(s: &'a str, i: usize) -> (parts: (&'a str, &'a str))
    requires
        i < s.spec_bytes().len(),
        s.spec_bytes()[i as int] < 0x80,
    ensures
        parts.0.spec_bytes() == s.spec_bytes().take(i as int),
        parts.1.spec_bytes() == s.spec_bytes().skip(i + 1),
{
    let bytes = s.as_bytes();
    let blen = bytes.len();
    assert(i < blen);
    proof {
        lemma_boundary_after_ascii(bytes@, i as int);
    }
    let (left, _) = s.split_at(i);
    let (_, rest) = s.split_at(i + 1);
    assert(left.spec_bytes() == bytes@.take(i as int));
    assert(rest.spec_bytes() == bytes@.skip(i + 1));
    (left, rest)
}

/// Splits a string into what precedes and what follows its last byte `b`,
/// which must be ASCII; `None` when there is no such byte.
pub fn rsplit_once_ascii<'a>(s: &'a str, b: u8) -> (parts: Option<(&'a str, &'a str)>)
    requires
        b < 0x80,
    ensures
        match last_position(s.spec_bytes(), b) {
            Some(i) => parts matches Some((l, r)) && l.spec_bytes() == s.spec_bytes().take(i)
                && r.spec_bytes() == s.spec_bytes().skip(i + 1),
            None => parts is None,
        },
{
    let bytes = s.as_bytes();
    match find_last_byte(bytes, b) {
        Some(i) => {
            assert(s.spec_bytes()[i as int] == b) by {
                lemma_last_position_props(bytes@, b);
            }
            Some(split_around(s, i))
        },
        None => None,
    }
}

/// What the last position of `b` in `s` tells of `s`.
pub proof fn lemma_last_position_props(s: Seq<u8>, b: u8)
    ensures
        last_position(s, b) is Some ==> {
            let i = last_position(s, b)->0;
            &&& 0 <= i < s.len()
            &&& s[i] == b
        },
    decreases s.len(),
{
    if s.len() > 0 && s.last() != b {
        lemma_last_position_props(s.drop_last(), b);
    }
}

/// Splits a string into what precedes and what follows its first byte `b`,
/// which must be ASCII; `None` when there is no such byte.
pub fn split_once_ascii<'a>(s: &'a str, b: u8) -> (parts: Option<(&'a str, &'a str)>)
    requires
        b < 0x80,
    ensures
        match first_position(s.spec_bytes(), b) {
            Some(i) => parts matches Some((l, r)) && l.spec_bytes() == s.spec_bytes().take(i)
                && r.spec_bytes() == s.spec_bytes().skip(i + 1),
            None => parts is None,
        },
{
    let bytes = s.as_bytes();
    match find_byte(bytes, b) {
        Some(i) => {
            assert(s.spec_bytes()[i as int] == b) by {
                lemma_first_position_props(bytes@, b);
            }
            Some(split_around(s, i))
        },
        None => None,
    }
}

/// What the first position of `b` in `s` tells of `s`.
pub proof fn lemma_first_position_props(s: Seq<u8>, b: u8)
    ensures
        first_position(s, b) is Some ==> {
            let i = first_position(s, b)->0;
            &&& 0 <= i < s.len()
            &&& s[i] == b
            &&& forall|j: int| 0 <= j < i ==> s[j] != b
        },
        first_position(s, b) is None ==> forall|j: int| 0 <= j < s.len() ==> s[j] != b,
    decreases s.len(),
{
    if s.len() > 0 {
        lemma_first_position_props(s.drop_first(), b);
        if s[0] != b {
            assert forall|j: int| 1 <= j < s.len() implies s[j] == s.drop_first()[j - 1] by {}
        }
    }
}

/// Split an EVR string such as `"1:2.3.4-5"` into its epoch, version and
/// release: `("1", "2.3.4", "5")`. A missing epoch or release is empty.
pub fn parse_values<'a>(evr: &'a str) -> (parts: (&'a str, &'a str, &'a str))
    ensures
        (parts.0.spec_bytes(), parts.1.spec_bytes(), parts.2.spec_bytes()) == split_evr(
            evr.spec_bytes(),
        ),
{
    let empty = "";
    proof {
        reveal_strlit("");
        assert(empty.spec_bytes() == Seq::<u8>::empty());
    }
    let (epoch, vr) = match split_once_ascii(evr, COLON) {
        Some((e, rest)) => (e, rest),
        None => (empty, evr),
    };
    let (version, release) = match rsplit_once_ascii(vr, DASH) {
        Some((v, r)) => (v, r),
        None => (vr, empty),
    };
    (epoch, version, release)
}

/// Parse an epoch string as `str::parse::<u32>` does: an optional `+`, then
/// one or more ASCII digits, with a value below 2^32.
pub fn parse_epoch(epoch: &str) -> (n: Option<u32>)
    ensures
        n == parse_u32_value(epoch.spec_bytes()),
{
    let bytes = epoch.as_bytes();
    let ghost s = bytes@;
    let start: usize = if bytes.len() > 0 && bytes[0] == PLUS {
        1
    } else {
        0
    };
    let ghost digits = unsigned_digits(s);
    assert(digits == s.skip(start as int));
    if start >= bytes.len() {
        return None;
    }
    let mut value: u32 = 0;
    let mut i = start;
    while i < bytes.len()
        invariant
            s == bytes@,
            s == epoch.spec_bytes(),
            digits == unsigned_digits(s),
            digits == s.skip(start as int),
            start <= i <= s.len(),
            forall|k: int| start <= k < i ==> is_digit(#[trigger] s[k]),
            value == decimal_value(s.subrange(start as int, i as int)),
        decreases s.len() - i,
    {
        let b = bytes[i];
        if !byte_is_digit(b) {
            assert(!is_digit(digits[i - start]));
            assert(!all_digits(digits));
            return None;
        }
        let d = (b - ZERO) as u32;
        let ghost prefix = s.subrange(start as int, i + 1);
        assert(prefix.drop_last() == s.subrange(start as int, i as int));
        if value > (u32::MAX - d) / 10 {
            proof {
                assert(value * 10 + d > u32::MAX) by (nonlinear_arith)
                    requires
                        value > (u32::MAX - d) / 10,
                        d <= 9,
                ;
                assert(decimal_value(prefix) > u32::MAX);
                if all_digits(digits) {
                    lemma_decimal_value_prefix(digits, i + 1 - start);
                    assert(digits.take(i + 1 - start) == prefix);
                }
            }
            return None;
        }
        assert(value * 10 + d <= u32::MAX) by (nonlinear_arith)
            requires
                value <= (u32::MAX - d) / 10,
                d <= 9,
        ;
        value = value * 10 + d;
        i += 1;
    }
    assert(s.subrange(start as int, s.len() as int) == digits);
    assert forall|k: int| 0 <= k < digits.len() implies is_digit(#[trigger] digits[k]) by {
        assert(digits[k] == s[start + k]);
    }
    assert(all_digits(digits));
    Some(value)
}

/// The value of a run of digits is at least that of its first `k` digits.
pub proof fn lemma_decimal_value_prefix(s: Seq<u8>, k: int)
    requires
        0 <= k <= s.len(),
        forall|i: int| 0 <= i < s.len() ==> is_digit(#[trigger] s[i]),
    ensures
        decimal_value(s.take(k)) <= decimal_value(s),
    decreases s.len() - k,
{
    if k < s.len() {
        lemma_decimal_value_prefix(s, k + 1);
        assert(s.take(k + 1).drop_last() == s.take(k));
        assert(is_digit(s[k]));
    } else {
        assert(s.take(k) == s);
    }
}

} // verus!
