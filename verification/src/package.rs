//! `Evr` (epoch, version, release) and `Nevra` (name, epoch, version,
//! release, architecture) values, ordered as RPM orders them.
use vstd::prelude::*;
use vstd::string::{StrSliceExecFns, StringExecFns, StringSliceAdditionalSpecFns};
use vstd::utf8::encode_utf8;

use crate::compare::compare_evr_values;
use crate::evr::{parse_values, split_evr};
use crate::laws::evr_order;
use crate::nevra::{compare_nevra_values, nevra_order, parse_nevra_values, split_nevra};
use crate::sortkey::{evr_key, EvrSortKey};

verus! {

/// `e:` when the epoch `e` is not empty, nothing otherwise.
pub open spec fn epoch_prefix(e: Seq<char>) -> Seq<char> {
    if e.len() == 0 {
        Seq::<char>::empty()
    } else {
        e + seq![':']
    }
}

/// `e:` for a non-empty epoch `e`, `0:` for an empty one.
pub open spec fn normalized_epoch_prefix(e: Seq<char>) -> Seq<char> {
    if e.len() == 0 {
        seq!['0', ':']
    } else {
        e + seq![':']
    }
}

/// `-r` when the release `r` is not empty, nothing otherwise.
pub open spec fn release_suffix(r: Seq<char>) -> Seq<char> {
    if r.len() == 0 {
        Seq::<char>::empty()
    } else {
        seq!['-'] + r
    }
}

/// The text of an EVR: `[epoch:]version[-release]`.
pub open spec fn evr_text(e: Seq<char>, v: Seq<char>, r: Seq<char>) -> Seq<char> {
    epoch_prefix(e) + v + release_suffix(r)
}

/// The normalized text of an EVR, which always has an epoch:
/// `epoch:version[-release]`, with `0` for an empty epoch.
pub open spec fn normalized_evr_text(e: Seq<char>, v: Seq<char>, r: Seq<char>) -> Seq<char> {
    normalized_epoch_prefix(e) + v + release_suffix(r)
}

/// An RPM version specifier: epoch, version, release.
#[derive(Clone, Debug)]
pub struct Evr {
    epoch: String,
    version: String,
    release: String,
}

impl View for Evr {
    type V = (Seq<char>, Seq<char>, Seq<char>);

    closed spec fn view(&self) -> (Seq<char>, Seq<char>, Seq<char>) {
        (self.epoch@, self.version@, self.release@)
    }
}

/// Appends `s` to `out`.
fn push_text(out: &mut String, s: &str)
    ensures
        final(out)@ == old(out)@ + s@,
{
    out.append(s);
}

impl Evr {
    /// An EVR from its three parts. An empty epoch means no epoch (the same
    /// as epoch 0).
    pub fn new(epoch: &str, version: &str, release: &str) -> (e: Evr)
        ensures
            e@ == (epoch@, version@, release@),
    {
        Evr { epoch: epoch.to_owned(), version: version.to_owned(), release: release.to_owned() }
    }

    /// Parse an EVR string such as `"2.3.4-5"` or `"1:2.3.4-5"`.
    pub fn parse(evr: &str) -> (e: Evr)
        ensures
            (encode_utf8(e@.0), encode_utf8(e@.1), encode_utf8(e@.2)) == split_evr(
                evr.spec_bytes(),
            ),
    {
        let (epoch, version, release) = parse_values(evr);
        Self::new(epoch, version, release)
    }

    /// The epoch string. Empty means no epoch (equivalent to epoch 0).
    pub fn epoch(&self) -> (s: &str)
        ensures
            s@ == self@.0,
    {
        self.epoch.as_str()
    }

    /// The version string.
    pub fn version(&self) -> (s: &str)
        ensures
            s@ == self@.1,
    {
        self.version.as_str()
    }

    /// The release string.
    pub fn release(&self) -> (s: &str)
        ensures
            s@ == self@.2,
    {
        self.release.as_str()
    }

    /// Replace the epoch.
    pub fn set_epoch(&mut self, epoch: &str)
        ensures
            final(self)@ == (epoch@, old(self)@.1, old(self)@.2),
    {
        self.epoch = epoch.to_owned();
    }

    /// Replace the version.
    pub fn set_version(&mut self, version: &str)
        ensures
            final(self)@ == (old(self)@.0, version@, old(self)@.2),
    {
        self.version = version.to_owned();
    }

    /// Replace the release.
    pub fn set_release(&mut self, release: &str)
        ensures
            final(self)@ == (old(self)@.0, old(self)@.1, release@),
    {
        self.release = release.to_owned();
    }

    /// Compare with another EVR in RPM order: -1, 0 or 1.
    pub fn compare(&self, other: &Evr) -> (c: i32)
        ensures
            c == evr_order(
                encode_utf8(self@.0),
                encode_utf8(self@.1),
                encode_utf8(self@.2),
                encode_utf8(other@.0),
                encode_utf8(other@.1),
                encode_utf8(other@.2),
            ),
    {
        compare_evr_values(
            self.epoch.as_str(),
            self.version.as_str(),
            self.release.as_str(),
            other.epoch.as_str(),
            other.version.as_str(),
            other.release.as_str(),
        )
    }

    /// The memcmp-sortable key of this EVR. Two EVRs have equal keys
    /// exactly when they are equal in RPM order, so the key also serves to
    /// hash them.
    pub fn sort_key(&self) -> (k: EvrSortKey)
        ensures
            k@ == evr_key(encode_utf8(self@.0), encode_utf8(self@.1), encode_utf8(self@.2)),
    {
        EvrSortKey::from_values(self.epoch.as_str(), self.version.as_str(), self.release.as_str())
    }

    /// The text `[epoch:]version[-release]`.
    pub fn to_string(&self) -> (s: String)
        ensures
            s@ == evr_text(self@.0, self@.1, self@.2),
    {
        let colon = ":";
        let dash = "-";
        proof {
            reveal_strlit(":");
            reveal_strlit("-");
        }
        let mut out = String::new();
        if self.epoch.as_str().unicode_len() > 0 {
            push_text(&mut out, self.epoch.as_str());
            push_text(&mut out, colon);
        }
        push_text(&mut out, self.version.as_str());
        if self.release.as_str().unicode_len() > 0 {
            push_text(&mut out, dash);
            push_text(&mut out, self.release.as_str());
        }
        assert(out@ == evr_text(self@.0, self@.1, self@.2));
        out
    }

    /// The EVR in normalized form, always with an epoch (e.g. `"0:1.2.3-4"`).
    pub fn as_normalized_form(&self) -> (s: String)
        ensures
            s@ == normalized_evr_text(self@.0, self@.1, self@.2),
    {
        let zero_colon = "0:";
        let colon = ":";
        let dash = "-";
        proof {
            reveal_strlit("0:");
            reveal_strlit(":");
            reveal_strlit("-");
        }
        let mut out = String::new();
        if self.epoch.as_str().unicode_len() > 0 {
            push_text(&mut out, self.epoch.as_str());
            push_text(&mut out, colon);
        } else {
            push_text(&mut out, zero_colon);
        }
        push_text(&mut out, self.version.as_str());
        if self.release.as_str().unicode_len() > 0 {
            push_text(&mut out, dash);
            push_text(&mut out, self.release.as_str());
        }
        assert(out@ == normalized_evr_text(self@.0, self@.1, self@.2));
        out
    }
}

/// The text of a NEVRA: `name-[epoch:]version-release.arch`.
pub open spec fn nevra_text(
    n: Seq<char>,
    e: Seq<char>,
    v: Seq<char>,
    r: Seq<char>,
    a: Seq<char>,
) -> Seq<char> {
    n + seq!['-'] + epoch_prefix(e) + v + seq!['-'] + r + seq!['.'] + a
}

/// The normalized text of a NEVRA, which always has an epoch:
/// `name-epoch:version-release.arch`, with `0` for an empty epoch.
pub open spec fn normalized_nevra_text(
    n: Seq<char>,
    e: Seq<char>,
    v: Seq<char>,
    r: Seq<char>,
    a: Seq<char>,
) -> Seq<char> {
    n + seq!['-'] + normalized_epoch_prefix(e) + v + seq!['-'] + r + seq!['.'] + a
}

/// The NVRA text, without epoch: `name-version-release.arch`.
pub open spec fn nvra_text(
    n: Seq<char>,
    v: Seq<char>,
    r: Seq<char>,
    a: Seq<char>,
) -> Seq<char> {
    n + seq!['-'] + v + seq!['-'] + r + seq!['.'] + a
}

/// A full RPM NEVRA: name, epoch, version, release, architecture.
#[derive(Clone, Debug)]
pub struct Nevra {
    name: String,
    epoch: String,
    version: String,
    release: String,
    arch: String,
}

impl View for Nevra {
    type V = (Seq<char>, Seq<char>, Seq<char>, Seq<char>, Seq<char>);

    closed spec fn view(&self) -> (Seq<char>, Seq<char>, Seq<char>, Seq<char>, Seq<char>) {
        (self.name@, self.epoch@, self.version@, self.release@, self.arch@)
    }
}

impl Nevra {
    /// A NEVRA from its five parts.
    pub fn new(name: &str, epoch: &str, version: &str, release: &str, arch: &str) -> (n: Nevra)
        ensures
            n@ == (name@, epoch@, version@, release@, arch@),
    {
        Nevra {
            name: name.to_owned(),
            epoch: epoch.to_owned(),
            version: version.to_owned(),
            release: release.to_owned(),
            arch: arch.to_owned(),
        }
    }

    /// Parse a NEVRA string such as `"foo-1.2.3-4.x86_64"` or
    /// `"foo-1:1.2.3-4.x86_64"`.
    pub fn parse(nevra: &str) -> (n: Nevra)
        ensures
            (
                encode_utf8(n@.0),
                encode_utf8(n@.1),
                encode_utf8(n@.2),
                encode_utf8(n@.3),
                encode_utf8(n@.4),
            ) == split_nevra(nevra.spec_bytes()),
    {
        let (name, epoch, version, release, arch) = parse_nevra_values(nevra);
        Self::new(name, epoch, version, release, arch)
    }

    /// The package name.
    pub fn name(&self) -> (s: &str)
        ensures
            s@ == self@.0,
    {
        self.name.as_str()
    }

    /// The epoch string. Empty means no epoch (equivalent to epoch 0).
    pub fn epoch(&self) -> (s: &str)
        ensures
            s@ == self@.1,
    {
        self.epoch.as_str()
    }

    /// The version string.
    pub fn version(&self) -> (s: &str)
        ensures
            s@ == self@.2,
    {
        self.version.as_str()
    }

    /// The release string.
    pub fn release(&self) -> (s: &str)
        ensures
            s@ == self@.3,
    {
        self.release.as_str()
    }

    /// The architecture string (e.g. `"x86_64"`, `"noarch"`).
    pub fn arch(&self) -> (s: &str)
        ensures
            s@ == self@.4,
    {
        self.arch.as_str()
    }

    /// The EVR of this NEVRA.
    pub fn evr(&self) -> (e: Evr)
        ensures
            e@ == (self@.1, self@.2, self@.3),
    {
        Evr::new(self.epoch.as_str(), self.version.as_str(), self.release.as_str())
    }

    /// Compare with another NEVRA: by name (byte order), then by EVR in RPM
    /// order, then by architecture (byte order). Returns -1, 0 or 1.
    pub fn compare(&self, other: &Nevra) -> (c: i32)
        ensures
            c == nevra_order(
                encode_utf8(self@.0),
                encode_utf8(self@.1),
                encode_utf8(self@.2),
                encode_utf8(self@.3),
                encode_utf8(self@.4),
                encode_utf8(other@.0),
                encode_utf8(other@.1),
                encode_utf8(other@.2),
                encode_utf8(other@.3),
                encode_utf8(other@.4),
            ),
    {
        compare_nevra_values(
            self.name.as_str(),
            self.epoch.as_str(),
            self.version.as_str(),
            self.release.as_str(),
            self.arch.as_str(),
            other.name.as_str(),
            other.epoch.as_str(),
            other.version.as_str(),
            other.release.as_str(),
            other.arch.as_str(),
        )
    }

    /// The text `name-[epoch:]version-release.arch`.
    pub fn to_string(&self) -> (s: String)
        ensures
            s@ == nevra_text(self@.0, self@.1, self@.2, self@.3, self@.4),
    {
        let colon = ":";
        let dash = "-";
        let dot = ".";
        proof {
            reveal_strlit(":");
            reveal_strlit("-");
            reveal_strlit(".");
        }
        let mut out = String::new();
        push_text(&mut out, self.name.as_str());
        push_text(&mut out, dash);
        if self.epoch.as_str().unicode_len() > 0 {
            push_text(&mut out, self.epoch.as_str());
            push_text(&mut out, colon);
        }
        push_text(&mut out, self.version.as_str());
        push_text(&mut out, dash);
        push_text(&mut out, self.release.as_str());
        push_text(&mut out, dot);
        push_text(&mut out, self.arch.as_str());
        assert(out@ == nevra_text(self@.0, self@.1, self@.2, self@.3, self@.4));
        out
    }

    /// The NEVRA in normalized form, always with an epoch (e.g.
    /// `"foo-0:1.2.3-4.x86_64"`).
    pub fn as_normalized_form(&self) -> (s: String)
        ensures
            s@ == normalized_nevra_text(self@.0, self@.1, self@.2, self@.3, self@.4),
    {
        let zero_colon = "0:";
        let colon = ":";
        let dash = "-";
        let dot = ".";
        proof {
            reveal_strlit("0:");
            reveal_strlit(":");
            reveal_strlit("-");
            reveal_strlit(".");
        }
        let mut out = String::new();
        push_text(&mut out, self.name.as_str());
        push_text(&mut out, dash);
        if self.epoch.as_str().unicode_len() > 0 {
            push_text(&mut out, self.epoch.as_str());
            push_text(&mut out, colon);
        } else {
            push_text(&mut out, zero_colon);
        }
        push_text(&mut out, self.version.as_str());
        push_text(&mut out, dash);
        push_text(&mut out, self.release.as_str());
        push_text(&mut out, dot);
        push_text(&mut out, self.arch.as_str());
        assert(out@ == normalized_nevra_text(self@.0, self@.1, self@.2, self@.3, self@.4));
        out
    }

    /// The NVRA text, without epoch, as used for RPM file names (e.g.
    /// `"foo-1.2.3-4.x86_64"`).
    pub fn nvra(&self) -> (s: String)
        ensures
            s@ == nvra_text(self@.0, self@.2, self@.3, self@.4),
    {
        let dash = "-";
        let dot = ".";
        proof {
            reveal_strlit("-");
            reveal_strlit(".");
        }
        let mut out = String::new();
        push_text(&mut out, self.name.as_str());
        push_text(&mut out, dash);
        push_text(&mut out, self.version.as_str());
        push_text(&mut out, dash);
        push_text(&mut out, self.release.as_str());
        push_text(&mut out, dot);
        push_text(&mut out, self.arch.as_str());
        assert(out@ == nvra_text(self@.0, self@.2, self@.3, self@.4));
        out
    }
}

} // verus!
