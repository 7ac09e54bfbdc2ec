//! RPM dependency requirements: a package name with an optional version
//! constraint.
use vstd::prelude::*;
use vstd::utf8::encode_utf8;

use vstd::string::StringExecFns;

use crate::compare::{compare_evr_values, str_equal};
use crate::laws::evr_order;
use crate::operator::{operator_holds, operator_symbol, ReqOperator};
use crate::evr::{epoch_value, split_evr, COLON, DASH};
use crate::package::{evr_text, Evr};
use crate::round_trips::{free_of, law_evr_text_keeps_parts, law_evr_text_parses_back};

verus! {

/// A requirement: a package name with an optional constraint, an operator
/// and an EVR. A requirement without constraint is satisfied by any version
/// of the package.
#[derive(Clone, Debug)]
pub struct Requirement {
    name: String,
    constraint: Option<(ReqOperator, Evr)>,
}

/// The abstract constraint: an operator and the EVR's parts.
pub type ConstraintView = Option<(ReqOperator, (Seq<char>, Seq<char>, Seq<char>))>;

impl View for Requirement {
    type V = (Seq<char>, ConstraintView);

    closed spec fn view(&self) -> (Seq<char>, ConstraintView) {
        (
            self.name@,
            match self.constraint {
                Some((op, evr)) => Some((op, evr@)),
                None => None,
            },
        )
    }
}

/// The order of the EVR `e` against the EVR `k` of a constraint, as RPM
/// matches dependencies: when `k` has no release, the releases are not
/// compared (`foo = 2.0` is met by `foo-2.0-1`).
pub open spec fn constraint_order(
    e: (Seq<char>, Seq<char>, Seq<char>),
    k: (Seq<char>, Seq<char>, Seq<char>),
) -> int {
    evr_order(
        encode_utf8(e.0),
        encode_utf8(e.1),
        if k.2.len() == 0 {
            Seq::<u8>::empty()
        } else {
            encode_utf8(e.2)
        },
        encode_utf8(k.0),
        encode_utf8(k.1),
        encode_utf8(k.2),
    )
}

/// True when the EVR `e` meets the constraint `c`.
pub open spec fn meets_constraint(c: ConstraintView, e: (Seq<char>, Seq<char>, Seq<char>)) -> bool {
    match c {
        None => true,
        Some((op, k)) => operator_holds(op, constraint_order(e, k)),
    }
}

/// The text of a requirement: its name, followed, when it has a
/// constraint, by a space, the operator's symbol, a space and the EVR.
pub open spec fn requirement_text(r: (Seq<char>, ConstraintView)) -> Seq<char> {
    match r.1 {
        None => r.0,
        Some((op, k)) => r.0 + seq![' '] + operator_symbol(op) + seq![' '] + evr_text(
            k.0,
            k.1,
            k.2,
        ),
    }
}

/// True when two requirements are the same: equal names, and either no
/// constraint on both, or the same operator with EVRs equal in RPM order.
pub open spec fn requirements_equivalent(
    a: (Seq<char>, ConstraintView),
    b: (Seq<char>, ConstraintView),
) -> bool {
    a.0 == b.0 && match (a.1, b.1) {
        (None, None) => true,
        (Some((o1, k1)), Some((o2, k2))) => o1 == o2 && evr_order(
            encode_utf8(k1.0),
            encode_utf8(k1.1),
            encode_utf8(k1.2),
            encode_utf8(k2.0),
            encode_utf8(k2.1),
            encode_utf8(k2.2),
        ) == 0,
        _ => false,
    }
}

impl Requirement {
    /// A requirement on a name alone, which any version satisfies.
    pub fn new(name: &str) -> (r: Requirement)
        ensures
            r@ == (name@, None::<(ReqOperator, (Seq<char>, Seq<char>, Seq<char>))>),
    {
        Requirement { name: name.to_owned(), constraint: None }
    }

    /// A requirement on a name, constrained by an operator and an EVR.
    pub fn with_constraint(name: &str, op: ReqOperator, evr: Evr) -> (r: Requirement)
        ensures
            r@ == (name@, Some((op, evr@))),
    {
        Requirement { name: name.to_owned(), constraint: Some((op, evr)) }
    }

    /// A requirement from a name and an optional operator and EVR, which
    /// must be given both or neither; `None` when only one is given.
    pub fn from_parts(name: &str, op: Option<ReqOperator>, evr: Option<Evr>) -> (r: Option<
        Requirement,
    >)
        ensures
            r is Some <==> (op is Some == evr is Some),
            r matches Some(q) ==> q@ == (
                name@,
                match (op, evr) {
                    (Some(o), Some(e)) => Some((o, e@)),
                    _ => None,
                },
            ),
    {
        match (op, evr) {
            (None, None) => Some(Self::new(name)),
            (Some(o), Some(e)) => Some(Self::with_constraint(name, o, e)),
            _ => None,
        }
    }

    /// The required package name.
    pub fn name(&self) -> (s: &str)
        ensures
            s@ == self@.0,
    {
        self.name.as_str()
    }

    /// The version constraint, an operator and an EVR, if any.
    pub fn constraint(&self) -> (c: Option<(ReqOperator, &Evr)>)
        ensures
            self@.1 == match c {
                Some((o, e)) => Some((o, e@)),
                None => None,
            },
    {
        match &self.constraint {
            Some((op, evr)) => Some((*op, evr)),
            None => None,
        }
    }

    /// Whether a package of the given name and EVR satisfies this
    /// requirement: the names are equal and the EVR meets the constraint.
    /// A constraint without release leaves the release of the package out
    /// of the comparison.
    pub fn satisfies(&self, name: &str, evr: &Evr) -> (b: bool)
        ensures
            b == (self@.0 == name@ && meets_constraint(self@.1, evr@)),
    {
        if !str_equal(self.name.as_str(), name) {
            return false;
        }
        match &self.constraint {
            None => true,
            Some((op, c)) => {
                let empty = "";
                proof {
                    reveal_strlit("");
                }
                let release = if c.release().is_empty() {
                    empty
                } else {
                    evr.release()
                };
                let order = compare_evr_values(
                    evr.epoch(),
                    evr.version(),
                    release,
                    c.epoch(),
                    c.version(),
                    c.release(),
                );
                op.holds_for(order)
            },
        }
    }

    /// Whether this requirement is the same as `other`: equal names, and
    /// either no constraint on both, or the same operator with EVRs equal in
    /// RPM order.
    pub fn equivalent(&self, other: &Requirement) -> (b: bool)
        ensures
            b == requirements_equivalent(self@, other@),
    {
        if !str_equal(self.name.as_str(), other.name.as_str()) {
            return false;
        }
        match (&self.constraint, &other.constraint) {
            (None, None) => true,
            (Some((o1, k1)), Some((o2, k2))) => *o1 == *o2 && k1.compare(k2) == 0,
            _ => false,
        }
    }

    /// The text of the requirement: `name`, or `name op evr` with a
    /// constraint (e.g. `"foo >= 2.0-1"`).
    pub fn to_string(&self) -> (s: String)
        ensures
            s@ == requirement_text(self@),
    {
        let mut out = String::new();
        out.append(self.name.as_str());
        match &self.constraint {
            None => {},
            Some((op, evr)) => {
                let space = " ";
                proof {
                    reveal_strlit(" ");
                }
                out.append(space);
                out.append(op.symbol());
                out.append(space);
                let text = evr.to_string();
                out.append(text.as_str());
            },
        }
        out
    }
}

/// A higher epoch dominates requirement matching: a package whose numeric
/// epoch is below the constraint's never meets a `>=`, `>` or `=`
/// constraint and always meets a `<` or `<=` one, whatever the versions and
/// releases; a package whose epoch is above it the other way round.
pub proof fn law_constraint_epoch_dominates(
    k: (Seq<char>, Seq<char>, Seq<char>),
    e: (Seq<char>, Seq<char>, Seq<char>),
)
    ensures
        epoch_value(encode_utf8(e.0)) < epoch_value(encode_utf8(k.0)) ==> {
            &&& !meets_constraint(Some((ReqOperator::GE, k)), e)
            &&& !meets_constraint(Some((ReqOperator::GT, k)), e)
            &&& !meets_constraint(Some((ReqOperator::EQ, k)), e)
            &&& meets_constraint(Some((ReqOperator::LT, k)), e)
            &&& meets_constraint(Some((ReqOperator::LE, k)), e)
        },
        epoch_value(encode_utf8(e.0)) > epoch_value(encode_utf8(k.0)) ==> {
            &&& meets_constraint(Some((ReqOperator::GE, k)), e)
            &&& meets_constraint(Some((ReqOperator::GT, k)), e)
            &&& !meets_constraint(Some((ReqOperator::EQ, k)), e)
            &&& !meets_constraint(Some((ReqOperator::LT, k)), e)
            &&& !meets_constraint(Some((ReqOperator::LE, k)), e)
        },
{
}

/// With a release in the constraint, a package meets it exactly when the
/// operator holds of the package's EVR against the constraint's EVR, as
/// `Evr::compare` orders them.
pub proof fn law_constraint_with_release(
    op: ReqOperator,
    k: (Seq<char>, Seq<char>, Seq<char>),
    e: (Seq<char>, Seq<char>, Seq<char>),
)
    requires
        k.2.len() > 0,
    ensures
        meets_constraint(Some((op, k)), e) == operator_holds(
            op,
            evr_order(
                encode_utf8(e.0),
                encode_utf8(e.1),
                encode_utf8(e.2),
                encode_utf8(k.0),
                encode_utf8(k.1),
                encode_utf8(k.2),
            ),
        ),
{
}

/// Without a release in the constraint, the package's release plays no
/// part: changing it never changes whether the constraint is met, and the
/// operator is applied to the order of the epochs and versions alone.
pub proof fn law_constraint_without_release(
    op: ReqOperator,
    k: (Seq<char>, Seq<char>, Seq<char>),
    e: (Seq<char>, Seq<char>, Seq<char>),
    other_release: Seq<char>,
)
    requires
        k.2.len() == 0,
    ensures
        meets_constraint(Some((op, k)), e) == meets_constraint(
            Some((op, k)),
            (e.0, e.1, other_release),
        ),
        meets_constraint(Some((op, k)), e) == operator_holds(
            op,
            evr_order(
                encode_utf8(e.0),
                encode_utf8(e.1),
                Seq::<u8>::empty(),
                encode_utf8(k.0),
                encode_utf8(k.1),
                Seq::<u8>::empty(),
            ),
        ),
{
    assert(encode_utf8(k.2) == Seq::<u8>::empty());
}

/// The text of a constrained requirement is its name, a space, the
/// operator's symbol, a space and the text of the constraint's EVR (as
/// `Evr::to_string` writes it), which keeps a non-empty epoch followed by
/// `:`; and when that EVR has an epoch without `:` and a release without
/// `-`, the text after the operator parses back to exactly that EVR.
pub proof fn law_requirement_text(
    r: (Seq<char>, ConstraintView),
    op: ReqOperator,
    k: (Seq<char>, Seq<char>, Seq<char>),
)
    requires
        r.1 == Some((op, k)),
    ensures
        requirement_text(r) == r.0 + seq![' '] + operator_symbol(op) + seq![' '] + evr_text(
            k.0,
            k.1,
            k.2,
        ),
        k.0.len() > 0 ==> requirement_text(r).skip(r.0.len() as int + operator_symbol(op).len() + 2).take(
            k.0.len() as int + 1,
        ) == k.0 + seq![':'],
        (k.0.len() > 0 && k.2.len() > 0 && free_of(encode_utf8(k.0), COLON) && free_of(
            encode_utf8(k.2),
            DASH,
        )) ==> split_evr(
            encode_utf8(requirement_text(r).skip(r.0.len() as int + operator_symbol(op).len() + 2)),
        ) == (encode_utf8(k.0), encode_utf8(k.1), encode_utf8(k.2)),
{
    let head = r.0 + seq![' '] + operator_symbol(op) + seq![' '];
    let t = evr_text(k.0, k.1, k.2);
    assert(head.len() == r.0.len() + operator_symbol(op).len() + 2);
    assert((head + t).skip(head.len() as int) == t);
    law_evr_text_keeps_parts(k.0, k.1, k.2);
    if k.0.len() > 0 && k.2.len() > 0 && free_of(encode_utf8(k.0), COLON) && free_of(
        encode_utf8(k.2),
        DASH,
    ) {
        law_evr_text_parses_back(k.0, k.1, k.2);
    }
}

} // verus!
