//! Encodes an EVR (epoch, version, release) as a memcmp-sortable binary key.
//!
//! The key is `[4-byte big-endian epoch] [version sortkey] [release sortkey]`.
//! A version or release sortkey is a sequence of tokens followed by the
//! end-of-version byte `0x02`:
//!
//!   `0x01`                           tilde (`~`), sorts lowest
//!   `0x02`                           end of the version (once, at the end)
//!   `0x03`                           caret (`^`)
//!   `0x04` letters `0x00`            an alphabetic segment
//!   `0x05` count digits `0x00`       a numeric segment without its leading
//!                                    zeros, led by its digit count: one
//!                                    length byte up to 255; above, `0xff
//!                                    0xff` for each 256 and a last byte for
//!                                    the rest
//!
//! Only ASCII letters and digits form segments; every byte other than those,
//! `~` and `^` separates segments and leaves no trace in the key. The order of
//! the markers is the RPM rule `~` < end < `^` < alpha < numeric, so that the
//! byte order of two keys is the RPM order of what they encode (see
//! `crate::laws`).
use vstd::prelude::*;
use vstd::string::StringSliceAdditionalSpecFns;

use crate::ascii::{
    alpha_run, byte_is_alpha, byte_is_digit, byte_is_separator, digit_run, is_alpha, is_digit,
    is_separator, lemma_alpha_run, lemma_digit_run, lemma_strip_zeros, strip_zeros, CARET, TILDE,
    ZERO,
};
use crate::evr::{epoch_value, parse_epoch, parse_values, split_evr};

verus! {

/// Closes an alphabetic or numeric segment.
pub const SEGMENT_END: u8 = 0x00;

/// Stands for `~`.
pub const MARK_TILDE: u8 = 0x01;

/// Closes a version or release.
pub const MARK_END: u8 = 0x02;

/// Stands for `^`.
pub const MARK_CARET: u8 = 0x03;

/// Opens an alphabetic segment.
pub const MARK_ALPHA: u8 = 0x04;

/// Opens a numeric segment.
pub const MARK_NUMERIC: u8 = 0x05;

/// Leads, twice, each further 256 of a digit count.
pub const COUNT_MORE: u8 = 0xff;

/// The bytes of a digit count `n`: a count below 256 is one byte; a larger
/// one is `0xff 0xff` followed by the bytes of `n - 256`. Since the byte
/// after a count of 255 (`0xff`) is a digit, below `0xff`, the byte order of
/// these encodings, followed by the digits they count, is the order of the
/// counts.
pub open spec fn count_bytes(n: nat) -> Seq<u8>
    decreases n,
{
    if n < 256 {
        seq![n as u8]
    } else {
        seq![COUNT_MORE, COUNT_MORE] + count_bytes((n - 256) as nat)
    }
}

/// The token of a numeric segment `digits`: its marker, the count of its
/// digits after leading zeros are dropped, those digits, and the segment
/// end.
pub open spec fn numeric_token(digits: Seq<u8>) -> Seq<u8> {
    let d = strip_zeros(digits);
    seq![MARK_NUMERIC] + count_bytes(d.len()) + d + seq![SEGMENT_END]
}

/// The token of an alphabetic segment `letters`.
pub open spec fn alpha_token(letters: Seq<u8>) -> Seq<u8> {
    seq![MARK_ALPHA] + letters + seq![SEGMENT_END]
}

/// The tokens of the version string `s` (its bytes), without the closing
/// end-of-version byte.
pub open spec fn version_tokens(s: Seq<u8>) -> Seq<u8>
    decreases s.len(),
{
    if s.len() == 0 {
        seq![]
    } else if s[0] == TILDE {
        seq![MARK_TILDE] + version_tokens(s.drop_first())
    } else if s[0] == CARET {
        seq![MARK_CARET] + version_tokens(s.drop_first())
    } else if is_digit(s[0]) {
        let n = digit_run(s) as int;
        proof {
            lemma_digit_run(s, 0);
        }
        numeric_token(s.take(n)) + version_tokens(s.skip(n))
    } else if is_alpha(s[0]) {
        let n = alpha_run(s) as int;
        proof {
            lemma_alpha_run(s, 0);
        }
        alpha_token(s.take(n)) + version_tokens(s.skip(n))
    } else {
        version_tokens(s.drop_first())
    }
}

/// The sortkey of a version or release string `s` (its bytes).
pub open spec fn version_key(s: Seq<u8>) -> Seq<u8> {
    version_tokens(s) + seq![MARK_END]
}

/// The four big-endian bytes of `x`.
pub open spec fn be_bytes(x: u32) -> Seq<u8> {
    seq![
        (x / 0x100_0000) as u8,
        ((x / 0x1_0000) % 0x100) as u8,
        ((x / 0x100) % 0x100) as u8,
        (x % 0x100) as u8,
    ]
}

/// The sortkey of the epoch, version and release strings `e`, `v`, `r`
/// (their bytes). An epoch that is not a `u32` counts as 0.
pub open spec fn evr_key(e: Seq<u8>, v: Seq<u8>, r: Seq<u8>) -> Seq<u8> {
    be_bytes(epoch_value(e)) + version_key(v) + version_key(r)
}

/// The sortkey of an EVR string `s` (its bytes) such as `1:2.3.4-5`.
pub open spec fn evr_string_key(s: Seq<u8>) -> Seq<u8> {
    let (e, v, r) = split_evr(s);
    evr_key(e, v, r)
}

/// Pushes the bytes of the digit count `n` onto `dst`.
fn push_count(dst: &mut Vec<u8>, n: usize)
    ensures
        final(dst)@ == old(dst)@ + count_bytes(n as nat),
{
    let mut k = n;
    while k >= 256
        invariant
            k <= n,
            dst@ + count_bytes(k as nat) == old(dst)@ + count_bytes(n as nat),
        decreases k,
    {
        let ghost before = dst@;
        dst.push(COUNT_MORE);
        dst.push(COUNT_MORE);
        assert(before + count_bytes(k as nat) == dst@ + count_bytes((k - 256) as nat));
        k = k - 256;
    }
    let ghost before = dst@;
    dst.push(k as u8);
    assert(dst@ == before + count_bytes(k as nat));
}

/// Pushes the bytes `src[from..to]` onto `dst`.
fn push_range(dst: &mut Vec<u8>, src: &[u8], from: usize, to: usize)
    requires
        from <= to <= src@.len(),
    ensures
        final(dst)@ == old(dst)@ + src@.subrange(from as int, to as int),
{
    let mut k = from;
    while k < to
        invariant
            from <= k <= to <= src@.len(),
            dst@ == old(dst)@ + src@.subrange(from as int, k as int),
        decreases to - k,
    {
        dst.push(src[k]);
        assert(src@.subrange(from as int, k + 1) == src@.subrange(from as int, k as int) + seq![
            src@[k as int],
        ]);
        k = k + 1;
    }
}

/// Encode a version or release string as a memcmp-sortable binary key.
///
/// The returned bytes compare (as `Ord for [u8]` / memcmp do) in the RPM
/// order of the strings; see [`EvrSortKey`] for the full EVR encoding.
#[verifier::rlimit(60)]
pub fn version_sortkey(ver: &str) -> (key: Vec<u8>)
    ensures
        key@ == version_key(ver.spec_bytes()),
{
    if ver.is_empty() {
        proof {
            assert(ver.spec_bytes() == Seq::<u8>::empty());
            assert(version_tokens(ver.spec_bytes()) == Seq::<u8>::empty());
        }
        return vec![MARK_END];
    }
    let bytes = ver.as_bytes();
    let len = bytes.len();
    let mut result: Vec<u8> = Vec::with_capacity(len);
    let mut pos: usize = 0;
    let ghost s = bytes@;
    assert(s.skip(0) == s);
    assert(result@ + version_tokens(s) == version_tokens(s));

    while pos < len
        invariant_except_break
            s == bytes@,
            len == s.len(),
            pos <= len,
            version_tokens(s) == result@ + version_tokens(s.skip(pos as int)),
        ensures
            version_tokens(s) == result@,
        decreases len - pos,
    {
        let ghost pos0 = pos;
        // Skip the bytes that only separate segments.
        while pos < len
            invariant_except_break
                s == bytes@,
                len == s.len(),
                pos0 <= pos <= len,
                version_tokens(s) == result@ + version_tokens(s.skip(pos as int)),
            ensures
                s == bytes@,
                len == s.len(),
                pos0 <= pos <= len,
                version_tokens(s) == result@ + version_tokens(s.skip(pos as int)),
                pos < len ==> !is_separator(s[pos as int]),
            decreases len - pos,
        {
            let b = bytes[pos];
            if !byte_is_separator(b) {
                break;
            }
            assert(s.skip(pos as int).drop_first() == s.skip(pos + 1));
            pos += 1;
        }

        if pos >= len {
            assert(s.skip(pos as int) == Seq::<u8>::empty());
            assert(result@ + Seq::<u8>::empty() == result@);
            break;
        }

        let b = bytes[pos];
        let ghost t = s.skip(pos as int);
        assert(t[0] == b);

        if b == TILDE {
            result.push(MARK_TILDE);
            assert(t.drop_first() == s.skip(pos + 1));
            pos += 1;
            continue;
        }

        if b == CARET {
            result.push(MARK_CARET);
            assert(t.drop_first() == s.skip(pos + 1));
            pos += 1;
            continue;
        }

        if byte_is_digit(b) {
            let start = pos;
            while pos < len && byte_is_digit(bytes[pos])
                invariant
                    s == bytes@,
                    len == s.len(),
                    start <= pos <= len,
                    forall|i: int| start <= i < pos ==> is_digit(#[trigger] s[i]),
                decreases len - pos,
            {
                pos += 1;
            }
            assert(pos > start);
            let n = pos - start;
            proof {
                assert forall|i: int| 0 <= i < n implies is_digit(#[trigger] t.take(n as int)[i]) by {
                    assert(t.take(n as int)[i] == s[start + i]);
                }
                lemma_digit_run(t, n as int);
            }
            // The first digit other than `0`, if any.
            let mut z = start;
            while z < pos && bytes[z] == ZERO
                invariant
                    s == bytes@,
                    len == s.len(),
                    start <= z <= pos <= len,
                    forall|i: int| start <= i < z ==> s[i] == ZERO,
                decreases pos - z,
            {
                z += 1;
            }
            let ghost seg = t.take(n as int);
            proof {
                assert forall|i: int| 0 <= i < z - start implies seg[i] == ZERO by {
                    assert(seg[i] == s[start + i]);
                }
                if z < pos {
                    assert(seg[z - start] == s[z as int]);
                }
                lemma_strip_zeros(seg, z - start);
                assert(seg.skip(z - start) == s.subrange(z as int, pos as int));
            }
            let ghost before = result@;
            result.push(MARK_NUMERIC);
            push_count(&mut result, pos - z);
            push_range(&mut result, bytes, z, pos);
            result.push(SEGMENT_END);
            proof {
                assert(result@ == before + numeric_token(seg));
                assert(t.skip(n as int) == s.skip(pos as int));
                assert(version_tokens(t) == numeric_token(seg) + version_tokens(s.skip(pos as int)));
                assert(before + (numeric_token(seg) + version_tokens(s.skip(pos as int))) == result@
                    + version_tokens(s.skip(pos as int)));
            }
        } else {
            assert(is_alpha(b));
            let start = pos;
            while pos < len && byte_is_alpha(bytes[pos])
                invariant
                    s == bytes@,
                    len == s.len(),
                    start <= pos <= len,
                    forall|i: int| start <= i < pos ==> is_alpha(#[trigger] s[i]),
                decreases len - pos,
            {
                pos += 1;
            }
            assert(pos > start);
            let n = pos - start;
            proof {
                assert forall|i: int| 0 <= i < n implies is_alpha(#[trigger] t.take(n as int)[i]) by {
                    assert(t.take(n as int)[i] == s[start + i]);
                }
                lemma_alpha_run(t, n as int);
                assert(t.take(n as int) == s.subrange(start as int, pos as int));
            }
            let ghost before = result@;
            result.push(MARK_ALPHA);
            push_range(&mut result, bytes, start, pos);
            result.push(SEGMENT_END);
            proof {
                assert(result@ == before + alpha_token(t.take(n as int)));
                assert(t.skip(n as int) == s.skip(pos as int));
                assert(before + (alpha_token(t.take(n as int)) + version_tokens(s.skip(pos as int)))
                    == result@ + version_tokens(s.skip(pos as int)));
            }
        }
    }

    result.push(MARK_END);
    result
}

/// A memcmp-sortable binary key of an EVR (epoch, version, release).
///
/// Compared byte by byte (the derived `Ord`, `memcmp`), keys sort in the RPM
/// order of the EVRs they encode. This makes the key fit for storage in a
/// database that compares byte arrays.
///
/// The layout is `[4-byte big-endian epoch] [version sortkey] [release
/// sortkey]`. Empty or unparseable epochs count as 0.
#[derive(Clone, Debug, PartialEq, Eq, PartialOrd, Ord, Hash)]
pub struct EvrSortKey(Vec<u8>);

impl View for EvrSortKey {
    type V = Seq<u8>;

    closed spec fn view(&self) -> Seq<u8> {
        self.0@
    }
}

impl EvrSortKey {
    /// Create a sortkey from individual epoch, version, and release strings.
    pub fn from_values(epoch: &str, version: &str, release: &str) -> (key: Self)
        ensures
            key@ == evr_key(epoch.spec_bytes(), version.spec_bytes(), release.spec_bytes()),
    {
        let epoch_int: u32 = if epoch.is_empty() {
            proof {
                assert(epoch.spec_bytes() == Seq::<u8>::empty());
            }
            0
        } else {
            match parse_epoch(epoch) {
                Some(n) => n,
                None => 0,
            }
        };

        let ver_key = version_sortkey(version);
        let rel_key = version_sortkey(release);

        let mut result: Vec<u8> = Vec::with_capacity(4);
        result.push((epoch_int / 0x100_0000) as u8);
        result.push(((epoch_int / 0x1_0000) % 0x100) as u8);
        result.push(((epoch_int / 0x100) % 0x100) as u8);
        result.push((epoch_int % 0x100) as u8);
        assert(result@ == be_bytes(epoch_int));
        push_range(&mut result, ver_key.as_slice(), 0, ver_key.len());
        assert(ver_key@.subrange(0, ver_key@.len() as int) == ver_key@);
        push_range(&mut result, rel_key.as_slice(), 0, rel_key.len());
        assert(rel_key@.subrange(0, rel_key@.len() as int) == rel_key@);
        EvrSortKey(result)
    }

    /// Parse an EVR string (e.g. `"1:2.3.4-5"`) and create a sortkey.
    pub fn parse(evr: &str) -> (key: Self)
        ensures
            key@ == evr_string_key(evr.spec_bytes()),
    {
        let (epoch, version, release) = parse_values(evr);
        Self::from_values(epoch, version, release)
    }

    /// Return a reference to the underlying bytes.
    pub fn as_bytes(&self) -> (bytes: &[u8])
        ensures
            bytes@ == self@,
    {
        self.0.as_slice()
    }
}

impl From<Vec<u8>> for EvrSortKey {
    /// A key that holds the given bytes as they are.
    fn from(v: Vec<u8>) -> (key: Self) {
        EvrSortKey(v)
    }
}

impl vstd::std_specs::convert::FromSpecImpl<Vec<u8>> for EvrSortKey {
    open spec fn obeys_from_spec() -> bool {
        true
    }

    closed spec fn from_spec(v: Vec<u8>) -> Self {
        EvrSortKey(v)
    }
}

impl From<EvrSortKey> for Vec<u8> {
    /// The bytes of the key.
    fn from(k: EvrSortKey) -> (bytes: Self) {
        k.0
    }
}

impl vstd::std_specs::convert::FromSpecImpl<EvrSortKey> for Vec<u8> {
    open spec fn obeys_from_spec() -> bool {
        true
    }

    closed spec fn from_spec(k: EvrSortKey) -> Self {
        k.0
    }
}

impl AsRef<[u8]> for EvrSortKey {
    fn as_ref(&self) -> (bytes: &[u8])
        ensures
            bytes@ == self@,
    {
        self.0.as_slice()
    }
}

/// A key made from bytes holds exactly those bytes, and the bytes taken
/// from a key are exactly its bytes: the two conversions undo each other.
pub proof fn law_key_bytes_conversions(v: Vec<u8>, k: EvrSortKey)
    ensures
        <EvrSortKey as vstd::std_specs::convert::FromSpec<Vec<u8>>>::from_spec(v)@ == v@,
        <Vec<u8> as vstd::std_specs::convert::FromSpec<EvrSortKey>>::from_spec(k)@ == k@,
        <EvrSortKey as vstd::std_specs::convert::FromSpec<Vec<u8>>>::from_spec(
            <Vec<u8> as vstd::std_specs::convert::FromSpec<EvrSortKey>>::from_spec(k),
        ) == k,
{
}

} // verus!
