//! NEVRA strings (`name-[epoch:]version-release.arch`): splitting them into
//! their parts and comparing them.
use vstd::prelude::*;
use vstd::string::StringSliceAdditionalSpecFns;

use crate::compare::{compare_evr_values, compare_strs};
use crate::evr::{first_position, last_position, rsplit_once_ascii, split_once_ascii, COLON, DASH};
use crate::laws::evr_order;
use crate::lexical::lex_order;

verus! {

/// The byte `.` that starts the architecture.
pub const DOT: u8 = 0x2e;

/// The name, epoch, version, release and architecture of a NEVRA string `s`
/// (its bytes). The architecture follows the last `.` (empty when there is
/// none); before it, the release follows the last `-` (empty when there is
/// none); before that, the name precedes the last `-` and the rest is the
/// epoch and version (empty when there is no such `-`); the epoch precedes
/// the first `:` of that rest (empty when there is none).
pub open spec fn split_nevra(s: Seq<u8>) -> (Seq<u8>, Seq<u8>, Seq<u8>, Seq<u8>, Seq<u8>) {
    let (nevr, arch) = match last_position(s, DOT) {
        Some(i) => (s.take(i), s.skip(i + 1)),
        None => (s, Seq::<u8>::empty()),
    };
    let (nev, release) = match last_position(nevr, DASH) {
        Some(i) => (nevr.take(i), nevr.skip(i + 1)),
        None => (nevr, Seq::<u8>::empty()),
    };
    let (name, ev) = match last_position(nev, DASH) {
        Some(i) => (nev.take(i), nev.skip(i + 1)),
        None => (nev, Seq::<u8>::empty()),
    };
    let (epoch, version) = match first_position(ev, COLON) {
        Some(i) => (ev.take(i), ev.skip(i + 1)),
        None => (Seq::<u8>::empty(), ev),
    };
    (name, epoch, version, release, arch)
}

/// The order of two NEVRAs given by their parts (bytes): by name (byte
/// order), then by EVR in RPM order, then by architecture (byte order).
pub open spec fn nevra_order(
    n1: Seq<u8>,
    e1: Seq<u8>,
    v1: Seq<u8>,
    r1: Seq<u8>,
    a1: Seq<u8>,
    n2: Seq<u8>,
    e2: Seq<u8>,
    v2: Seq<u8>,
    r2: Seq<u8>,
    a2: Seq<u8>,
) -> int {
    if lex_order(n1, n2) != 0 {
        lex_order(n1, n2)
    } else if evr_order(e1, v1, r1, e2, v2, r2) != 0 {
        evr_order(e1, v1, r1, e2, v2, r2)
    } else {
        lex_order(a1, a2)
    }
}

/// The order of two NEVRA strings (their bytes).
pub open spec fn nevra_string_order(s1: Seq<u8>, s2: Seq<u8>) -> int {
    let (n1, e1, v1, r1, a1) = split_nevra(s1);
    let (n2, e2, v2, r2, a2) = split_nevra(s2);
    nevra_order(n1, e1, v1, r1, a1, n2, e2, v2, r2, a2)
}

/// Split a NEVRA string such as `"foo-1:2.3.4-5.x86_64"` into its name,
/// epoch, version, release and architecture:
/// `("foo", "1", "2.3.4", "5", "x86_64")`.
pub fn parse_nevra_values<'a>(s: &'a str) -> (p: (&'a str, &'a str, &'a str, &'a str, &'a str))
    ensures
        (p.0.spec_bytes(), p.1.spec_bytes(), p.2.spec_bytes(), p.3.spec_bytes(), p.4.spec_bytes())
            == split_nevra(s.spec_bytes()),
{
    let empty = "";
    proof {
        reveal_strlit("");
        assert(empty.spec_bytes() == Seq::<u8>::empty());
    }
    let (nevr, arch) = match rsplit_once_ascii(s, DOT) {
        Some((l, r)) => (l, r),
        None => (s, empty),
    };
    let (nev, release) = match rsplit_once_ascii(nevr, DASH) {
        Some((l, r)) => (l, r),
        None => (nevr, empty),
    };
    let (name, ev) = match rsplit_once_ascii(nev, DASH) {
        Some((l, r)) => (l, r),
        None => (nev, empty),
    };
    let (epoch, version) = match split_once_ascii(ev, COLON) {
        Some((l, r)) => (l, r),
        None => (empty, ev),
    };
    (name, epoch, version, release, arch)
}

/// Compare two NEVRAs given by their parts: by name (byte order), then by
/// EVR in RPM order, then by architecture (byte order). Returns -1, 0 or 1.
pub fn compare_nevra_values(
    n1: &str,
    e1: &str,
    v1: &str,
    r1: &str,
    a1: &str,
    n2: &str,
    e2: &str,
    v2: &str,
    r2: &str,
    a2: &str,
) -> (c: i32)
    ensures
        c == nevra_order(
            n1.spec_bytes(),
            e1.spec_bytes(),
            v1.spec_bytes(),
            r1.spec_bytes(),
            a1.spec_bytes(),
            n2.spec_bytes(),
            e2.spec_bytes(),
            v2.spec_bytes(),
            r2.spec_bytes(),
            a2.spec_bytes(),
        ),
{
    let c = compare_strs(n1, n2);
    if c != 0 {
        return c;
    }
    let c = compare_evr_values(e1, v1, r1, e2, v2, r2);
    if c != 0 {
        return c;
    }
    compare_strs(a1, a2)
}

/// Compare two NEVRA strings (such as `"foo-1.0-1.x86_64"`): by name, then
/// by EVR in RPM order, then by architecture. Returns -1, 0 or 1.
pub fn nevra_compare(s1: &str, s2: &str) -> (c: i32)
    ensures
        c == nevra_string_order(s1.spec_bytes(), s2.spec_bytes()),
{
    let (n1, e1, v1, r1, a1) = parse_nevra_values(s1);
    let (n2, e2, v2, r2, a2) = parse_nevra_values(s2);
    compare_nevra_values(n1, e1, v1, r1, a1, n2, e2, v2, r2, a2)
}

/// NEVRAs are ordered by name first: different names compare as the names
/// in byte order, whatever the EVRs and architectures; equal names compare
/// as the EVRs in RPM order; equal names and EVRs compare as the
/// architectures.
pub proof fn law_nevra_order_name_first(
    n1: Seq<u8>,
    e1: Seq<u8>,
    v1: Seq<u8>,
    r1: Seq<u8>,
    a1: Seq<u8>,
    n2: Seq<u8>,
    e2: Seq<u8>,
    v2: Seq<u8>,
    r2: Seq<u8>,
    a2: Seq<u8>,
)
    ensures
        n1 != n2 ==> nevra_order(n1, e1, v1, r1, a1, n2, e2, v2, r2, a2) == lex_order(n1, n2),
        n1 == n2 && evr_order(e1, v1, r1, e2, v2, r2) != 0 ==> nevra_order(
            n1,
            e1,
            v1,
            r1,
            a1,
            n2,
            e2,
            v2,
            r2,
            a2,
        ) == evr_order(e1, v1, r1, e2, v2, r2),
        n1 == n2 && evr_order(e1, v1, r1, e2, v2, r2) == 0 ==> nevra_order(
            n1,
            e1,
            v1,
            r1,
            a1,
            n2,
            e2,
            v2,
            r2,
            a2,
        ) == lex_order(a1, a2),
{
    crate::lexical::lemma_lex_order_basics(n1, n2);
}

} // verus!
