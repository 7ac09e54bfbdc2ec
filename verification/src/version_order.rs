//! The RPM order of version strings (the order of `rpmvercmp`).
use vstd::prelude::*;

use crate::ascii::{
    alpha_run, digit_run, is_digit, lemma_alpha_run, lemma_digit_run, lemma_skip_separators,
    skip_separators, strip_zeros, CARET, TILDE,
};
use crate::lexical::lex_order;

verus! {

/// True when `s` (already past its separators) starts with the byte `c`.
pub open spec fn starts_with(s: Seq<u8>, c: u8) -> bool {
    s.len() > 0 && s[0] == c
}

/// The RPM order of the version (or release) strings `a` and `b` (their
/// bytes): -1, 0 or 1 as `a` is older than, the same as, or newer than `b`.
///
/// Both strings are read segment by segment, skipping separators. A `~`
/// sorts before anything, even the end of the string; a `^` sorts after the
/// end of the string but before any segment. Otherwise, when one string has
/// run out, the one with segments left is newer. A numeric segment is newer
/// than an alphabetic one; numeric segments compare by value (the one with
/// more digits after its leading zeros is newer, then digit by digit), and
/// alphabetic ones byte by byte. Equal segments pass on to what follows.
pub open spec fn rpm_version_order(a: Seq<u8>, b: Seq<u8>) -> int
    decreases a.len() + b.len(),
{
    let x = skip_separators(a);
    let y = skip_separators(b);
    proof {
        lemma_skip_separators(a, 0);
        lemma_skip_separators(b, 0);
    }
    if starts_with(x, TILDE) || starts_with(y, TILDE) {
        if !starts_with(x, TILDE) {
            1
        } else if !starts_with(y, TILDE) {
            -1
        } else {
            rpm_version_order(x.drop_first(), y.drop_first())
        }
    } else if starts_with(x, CARET) || starts_with(y, CARET) {
        if x.len() == 0 {
            -1
        } else if y.len() == 0 {
            1
        } else if x[0] != CARET {
            1
        } else if y[0] != CARET {
            -1
        } else {
            rpm_version_order(x.drop_first(), y.drop_first())
        }
    } else if x.len() == 0 || y.len() == 0 {
        if x.len() == 0 && y.len() == 0 {
            0
        } else if x.len() == 0 {
            -1
        } else {
            1
        }
    } else if is_digit(x[0]) {
        let nx = digit_run(x) as int;
        let ny = digit_run(y) as int;
        proof {
            lemma_digit_run(x, 0);
            lemma_digit_run(y, 0);
        }
        if ny == 0 {
            1
        } else {
            let dx = strip_zeros(x.take(nx));
            let dy = strip_zeros(y.take(ny));
            if dx.len() > dy.len() {
                1
            } else if dx.len() < dy.len() {
                -1
            } else if lex_order(dx, dy) != 0 {
                lex_order(dx, dy)
            } else {
                rpm_version_order(x.skip(nx), y.skip(ny))
            }
        }
    } else {
        let nx = alpha_run(x) as int;
        let ny = alpha_run(y) as int;
        proof {
            lemma_alpha_run(x, 0);
            lemma_alpha_run(y, 0);
        }
        if ny == 0 {
            -1
        } else if lex_order(x.take(nx), y.take(ny)) != 0 {
            lex_order(x.take(nx), y.take(ny))
        } else {
            rpm_version_order(x.skip(nx), y.skip(ny))
        }
    }
}

} // verus!
