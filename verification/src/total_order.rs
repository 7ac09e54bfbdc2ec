//! The RPM order of versions and of EVRs is a total order: every version is
//! equal to itself, swapping two versions flips their order, and the order is
//! transitive. This holds of every byte string, with no bound on its numbers.
use vstd::prelude::*;

use crate::ascii::{
    alpha_run, digit_run, is_alpha, is_digit, lemma_alpha_run, lemma_digit_run,
    lemma_skip_separators, skip_separators, strip_zeros, CARET, TILDE,
};
use crate::evr::epoch_value;
use crate::laws::evr_order;
use crate::lexical::{lemma_lex_order_basics, lex_order};
use crate::nevra::nevra_order;
use crate::version_order::rpm_version_order;

verus! {

/// The rank of what a version starts with once its separators are skipped:
/// `~` 1, the end 2, `^` 3, a letter 4, a digit 5. Versions of different rank
/// compare as their ranks.
pub open spec fn head_rank(a: Seq<u8>) -> int {
    let t = skip_separators(a);
    if t.len() == 0 {
        2
    } else if t[0] == TILDE {
        1
    } else if t[0] == CARET {
        3
    } else if is_digit(t[0]) {
        5
    } else {
        4
    }
}

/// The first segment of a version past its separators: the digits of a
/// numeric segment without leading zeros, the letters of an alphabetic one,
/// nothing for `~`, `^` or the end.
pub open spec fn head_segment(a: Seq<u8>) -> Seq<u8> {
    let t = skip_separators(a);
    if head_rank(a) == 5 {
        strip_zeros(t.take(digit_run(t) as int))
    } else if head_rank(a) == 4 {
        t.take(alpha_run(t) as int)
    } else {
        Seq::<u8>::empty()
    }
}

/// What follows the first segment or marker of a version.
pub open spec fn head_rest(a: Seq<u8>) -> Seq<u8> {
    let t = skip_separators(a);
    if head_rank(a) == 5 {
        t.skip(digit_run(t) as int)
    } else if head_rank(a) == 4 {
        t.skip(alpha_run(t) as int)
    } else if head_rank(a) == 2 {
        t
    } else {
        t.drop_first()
    }
}

/// The order of two numeric segments (digits without leading zeros): the
/// longer one is larger, then digit by digit.
pub open spec fn number_order(x: Seq<u8>, y: Seq<u8>) -> int {
    if x.len() > y.len() {
        1
    } else if x.len() < y.len() {
        -1
    } else {
        lex_order(x, y)
    }
}

/// The order of two first segments of the given rank.
pub open spec fn segment_order(rank: int, x: Seq<u8>, y: Seq<u8>) -> int {
    if rank == 5 {
        number_order(x, y)
    } else if rank == 4 {
        lex_order(x, y)
    } else {
        0
    }
}

/// The RPM order, one step at a time: by rank, then by first segment, then
/// by what follows.
proof fn lemma_order_step(a: Seq<u8>, b: Seq<u8>)
    ensures
        head_rank(a) < head_rank(b) ==> rpm_version_order(a, b) == -1,
        head_rank(a) > head_rank(b) ==> rpm_version_order(a, b) == 1,
        head_rank(a) == head_rank(b) == 2 ==> rpm_version_order(a, b) == 0,
        head_rank(a) == head_rank(b) && head_rank(a) != 2 ==> rpm_version_order(a, b) == (if segment_order(
            head_rank(a),
            head_segment(a),
            head_segment(b),
        ) != 0 {
            segment_order(head_rank(a), head_segment(a), head_segment(b))
        } else {
            rpm_version_order(head_rest(a), head_rest(b))
        }),
        head_rank(a) != 2 ==> head_rest(a).len() < a.len(),
        head_rank(b) != 2 ==> head_rest(b).len() < b.len(),
{
    let t = skip_separators(a);
    let u = skip_separators(b);
    lemma_skip_separators(a, 0);
    lemma_skip_separators(b, 0);
    if t.len() > 0 {
        lemma_digit_run(t, 0);
        lemma_alpha_run(t, 0);
    }
    if u.len() > 0 {
        lemma_digit_run(u, 0);
        lemma_alpha_run(u, 0);
    }
    if t.len() > 0 && is_digit(t[0]) && u.len() > 0 && !is_digit(u[0]) {
        assert(digit_run(u) == 0);
    }
    if t.len() > 0 && is_alpha(t[0]) && u.len() > 0 && !is_alpha(u[0]) {
        assert(alpha_run(u) == 0);
    }
}

/// Lexicographic order is transitive.
pub proof fn lemma_lex_order_transitive(x: Seq<u8>, y: Seq<u8>, z: Seq<u8>)
    requires
        lex_order(x, y) < 0,
        lex_order(y, z) < 0,
    ensures
        lex_order(x, z) < 0,
    decreases x.len(),
{
    if x.len() > 0 && y.len() > 0 && z.len() > 0 && x[0] == y[0] && y[0] == z[0] {
        lemma_lex_order_transitive(x.drop_first(), y.drop_first(), z.drop_first());
    }
}

/// Facts on the order of segments: it is -1, 0 or 1, it is 0 only for equal
/// segments, and swapping the segments flips it.
proof fn lemma_segment_order_basics(rank: int, x: Seq<u8>, y: Seq<u8>)
    requires
        rank == 4 || rank == 5,
    ensures
        -1 <= segment_order(rank, x, y) <= 1,
        segment_order(rank, x, y) == 0 <==> x == y,
        segment_order(rank, y, x) == -segment_order(rank, x, y),
{
    lemma_lex_order_basics(x, y);
}

/// The order of segments is transitive.
proof fn lemma_segment_order_transitive(rank: int, x: Seq<u8>, y: Seq<u8>, z: Seq<u8>)
    requires
        rank == 4 || rank == 5,
        segment_order(rank, x, y) < 0,
        segment_order(rank, y, z) < 0,
    ensures
        segment_order(rank, x, z) < 0,
{
    if rank == 4 || (x.len() == y.len() && y.len() == z.len()) {
        lemma_lex_order_transitive(x, y, z);
    }
}

/// Every version is equal to itself in RPM order.
pub proof fn law_version_order_reflexive(a: Seq<u8>)
    ensures
        rpm_version_order(a, a) == 0,
    decreases a.len(),
{
    lemma_order_step(a, a);
    let r = head_rank(a);
    if r != 2 {
        law_version_order_reflexive(head_rest(a));
        if r == 4 || r == 5 {
            lemma_segment_order_basics(r, head_segment(a), head_segment(a));
        }
    }
}

/// Swapping two versions flips their RPM order, which is always -1, 0 or 1.
pub proof fn law_version_order_antisymmetric(a: Seq<u8>, b: Seq<u8>)
    ensures
        -1 <= rpm_version_order(a, b) <= 1,
        rpm_version_order(b, a) == -rpm_version_order(a, b),
    decreases a.len() + b.len(),
{
    lemma_order_step(a, b);
    lemma_order_step(b, a);
    let r = head_rank(a);
    if r != 2 && r == head_rank(b) {
        if r == 4 || r == 5 {
            lemma_segment_order_basics(r, head_segment(a), head_segment(b));
        }
        law_version_order_antisymmetric(head_rest(a), head_rest(b));
    }
}

/// Versions that are equal in RPM order compare alike with any third one.
pub proof fn law_version_order_equal_substitutes(a: Seq<u8>, b: Seq<u8>, c: Seq<u8>)
    requires
        rpm_version_order(a, b) == 0,
    ensures
        rpm_version_order(a, c) == rpm_version_order(b, c),
    decreases a.len() + b.len() + c.len(),
{
    lemma_order_step(a, b);
    lemma_order_step(a, c);
    lemma_order_step(b, c);
    let r = head_rank(a);
    assert(head_rank(b) == r);
    if r != 2 && head_rank(c) == r {
        if r == 4 || r == 5 {
            lemma_segment_order_basics(r, head_segment(a), head_segment(b));
            assert(head_segment(a) == head_segment(b));
        }
        law_version_order_equal_substitutes(head_rest(a), head_rest(b), head_rest(c));
    }
}

/// The RPM order of versions is transitive: if `a` is older than `b` and `b`
/// older than `c`, then `a` is older than `c`.
pub proof fn law_version_order_transitive(a: Seq<u8>, b: Seq<u8>, c: Seq<u8>)
    requires
        rpm_version_order(a, b) < 0,
        rpm_version_order(b, c) < 0,
    ensures
        rpm_version_order(a, c) < 0,
    decreases a.len() + b.len() + c.len(),
{
    lemma_order_step(a, b);
    lemma_order_step(b, c);
    lemma_order_step(a, c);
    let r = head_rank(a);
    if head_rank(b) == r && head_rank(c) == r {
        assert(r != 2);
        let sa = head_segment(a);
        let sb = head_segment(b);
        let sc = head_segment(c);
        if r == 4 || r == 5 {
            lemma_segment_order_basics(r, sa, sb);
            lemma_segment_order_basics(r, sb, sc);
            lemma_segment_order_basics(r, sa, sc);
            if segment_order(r, sa, sb) < 0 && segment_order(r, sb, sc) < 0 {
                lemma_segment_order_transitive(r, sa, sb, sc);
            } else if segment_order(r, sa, sb) == 0 && segment_order(r, sb, sc) == 0 {
                law_version_order_transitive(head_rest(a), head_rest(b), head_rest(c));
            }
        } else {
            law_version_order_transitive(head_rest(a), head_rest(b), head_rest(c));
        }
    }
}

/// Every EVR is equal to itself, and swapping two EVRs flips their order,
/// which is always -1, 0 or 1.
pub proof fn law_evr_order_antisymmetric(
    e1: Seq<u8>,
    v1: Seq<u8>,
    r1: Seq<u8>,
    e2: Seq<u8>,
    v2: Seq<u8>,
    r2: Seq<u8>,
)
    ensures
        evr_order(e1, v1, r1, e1, v1, r1) == 0,
        -1 <= evr_order(e1, v1, r1, e2, v2, r2) <= 1,
        evr_order(e2, v2, r2, e1, v1, r1) == -evr_order(e1, v1, r1, e2, v2, r2),
{
    law_version_order_reflexive(v1);
    law_version_order_reflexive(r1);
    law_version_order_antisymmetric(v1, v2);
    law_version_order_antisymmetric(r1, r2);
}

/// The RPM order of EVRs is transitive.
pub proof fn law_evr_order_transitive(
    e1: Seq<u8>,
    v1: Seq<u8>,
    r1: Seq<u8>,
    e2: Seq<u8>,
    v2: Seq<u8>,
    r2: Seq<u8>,
    e3: Seq<u8>,
    v3: Seq<u8>,
    r3: Seq<u8>,
)
    requires
        evr_order(e1, v1, r1, e2, v2, r2) < 0,
        evr_order(e2, v2, r2, e3, v3, r3) < 0,
    ensures
        evr_order(e1, v1, r1, e3, v3, r3) < 0,
{
    let p1 = epoch_value(e1);
    let p2 = epoch_value(e2);
    let p3 = epoch_value(e3);
    if p1 == p2 && p2 == p3 {
        let o12 = rpm_version_order(v1, v2);
        let o23 = rpm_version_order(v2, v3);
        if o12 < 0 && o23 < 0 {
            law_version_order_transitive(v1, v2, v3);
        } else if o12 == 0 && o23 == 0 {
            law_version_order_equal_substitutes(v1, v2, v3);
            law_version_order_transitive(r1, r2, r3);
        } else if o12 == 0 {
            law_version_order_equal_substitutes(v1, v2, v3);
        } else {
            law_version_order_antisymmetric(v2, v3);
            law_version_order_equal_substitutes(v2, v3, v1);
            law_version_order_antisymmetric(v1, v2);
            law_version_order_antisymmetric(v1, v3);
        }
    }
}

/// EVRs that are equal in RPM order compare alike with any third one.
pub proof fn law_evr_order_equal_substitutes(
    e1: Seq<u8>,
    v1: Seq<u8>,
    r1: Seq<u8>,
    e2: Seq<u8>,
    v2: Seq<u8>,
    r2: Seq<u8>,
    e3: Seq<u8>,
    v3: Seq<u8>,
    r3: Seq<u8>,
)
    requires
        evr_order(e1, v1, r1, e2, v2, r2) == 0,
    ensures
        evr_order(e1, v1, r1, e3, v3, r3) == evr_order(e2, v2, r2, e3, v3, r3),
{
    law_version_order_equal_substitutes(v1, v2, v3);
    law_version_order_equal_substitutes(r1, r2, r3);
}

/// Every NEVRA is equal to itself, and swapping two NEVRAs flips their
/// order, which is always -1, 0 or 1.
pub proof fn law_nevra_order_antisymmetric(
    n1: Seq<u8>,
    e1: Seq<u8>,
    v1: Seq<u8>,
    r1: Seq<u8>,
    a1: Seq<u8>,
    n2: Seq<u8>,
    e2: Seq<u8>,
    v2: Seq<u8>,
    r2: Seq<u8>,
    a2: Seq<u8>,
)
    ensures
        nevra_order(n1, e1, v1, r1, a1, n1, e1, v1, r1, a1) == 0,
        -1 <= nevra_order(n1, e1, v1, r1, a1, n2, e2, v2, r2, a2) <= 1,
        nevra_order(n2, e2, v2, r2, a2, n1, e1, v1, r1, a1) == -nevra_order(
            n1,
            e1,
            v1,
            r1,
            a1,
            n2,
            e2,
            v2,
            r2,
            a2,
        ),
{
    lemma_lex_order_basics(n1, n2);
    lemma_lex_order_basics(n1, n1);
    lemma_lex_order_basics(a1, a2);
    lemma_lex_order_basics(a1, a1);
    law_evr_order_antisymmetric(e1, v1, r1, e2, v2, r2);
}

/// The order of NEVRAs is transitive.
pub proof fn law_nevra_order_transitive(
    n1: Seq<u8>,
    e1: Seq<u8>,
    v1: Seq<u8>,
    r1: Seq<u8>,
    a1: Seq<u8>,
    n2: Seq<u8>,
    e2: Seq<u8>,
    v2: Seq<u8>,
    r2: Seq<u8>,
    a2: Seq<u8>,
    n3: Seq<u8>,
    e3: Seq<u8>,
    v3: Seq<u8>,
    r3: Seq<u8>,
    a3: Seq<u8>,
)
    requires
        nevra_order(n1, e1, v1, r1, a1, n2, e2, v2, r2, a2) < 0,
        nevra_order(n2, e2, v2, r2, a2, n3, e3, v3, r3, a3) < 0,
    ensures
        nevra_order(n1, e1, v1, r1, a1, n3, e3, v3, r3, a3) < 0,
{
    lemma_lex_order_basics(n1, n2);
    lemma_lex_order_basics(n2, n3);
    lemma_lex_order_basics(n1, n3);
    let o12 = evr_order(e1, v1, r1, e2, v2, r2);
    let o23 = evr_order(e2, v2, r2, e3, v3, r3);
    if lex_order(n1, n2) < 0 && lex_order(n2, n3) < 0 {
        lemma_lex_order_transitive(n1, n2, n3);
    } else if lex_order(n1, n2) == 0 && lex_order(n2, n3) == 0 {
        law_evr_order_antisymmetric(e1, v1, r1, e2, v2, r2);
        law_evr_order_antisymmetric(e2, v2, r2, e3, v3, r3);
        law_evr_order_antisymmetric(e1, v1, r1, e3, v3, r3);
        if o12 < 0 && o23 < 0 {
            law_evr_order_transitive(e1, v1, r1, e2, v2, r2, e3, v3, r3);
        } else if o12 == 0 {
            law_evr_order_equal_substitutes(e1, v1, r1, e2, v2, r2, e3, v3, r3);
            if o23 == 0 {
                lemma_lex_order_basics(a1, a2);
                lemma_lex_order_basics(a2, a3);
                lemma_lex_order_basics(a1, a3);
                if lex_order(a1, a2) < 0 && lex_order(a2, a3) < 0 {
                    lemma_lex_order_transitive(a1, a2, a3);
                }
            }
        } else {
            law_evr_order_equal_substitutes(e3, v3, r3, e2, v2, r2, e1, v1, r1);
        }
    }
}

/// NEVRAs that are equal in their order compare alike with any third one.
pub proof fn law_nevra_order_equal_substitutes(
    n1: Seq<u8>,
    e1: Seq<u8>,
    v1: Seq<u8>,
    r1: Seq<u8>,
    a1: Seq<u8>,
    n2: Seq<u8>,
    e2: Seq<u8>,
    v2: Seq<u8>,
    r2: Seq<u8>,
    a2: Seq<u8>,
    n3: Seq<u8>,
    e3: Seq<u8>,
    v3: Seq<u8>,
    r3: Seq<u8>,
    a3: Seq<u8>,
)
    requires
        nevra_order(n1, e1, v1, r1, a1, n2, e2, v2, r2, a2) == 0,
    ensures
        nevra_order(n1, e1, v1, r1, a1, n3, e3, v3, r3, a3) == nevra_order(
            n2,
            e2,
            v2,
            r2,
            a2,
            n3,
            e3,
            v3,
            r3,
            a3,
        ),
{
    lemma_lex_order_basics(n1, n2);
    lemma_lex_order_basics(a1, a2);
    law_evr_order_equal_substitutes(e1, v1, r1, e2, v2, r2, e3, v3, r3);
}

} // verus!
