//! The comparison operators of RPM dependency requirements.
use vstd::prelude::*;
use vstd::string::StringSliceAdditionalSpecFns;

verus! {

/// Comparison operator for an RPM dependency requirement.
#[derive(Clone, Copy, Debug, PartialEq, Eq, Hash, Structural)]
pub enum ReqOperator {
    LT,
    LE,
    EQ,
    GE,
    GT,
}

/// The operator that the text `s` (its bytes) names: `<` or `LT`, `<=` or
/// `LE`, `=`, `==` or `EQ`, `>=` or `GE`, `>` or `GT`; none for any other
/// text.
pub open spec fn operator_named(s: Seq<u8>) -> Option<ReqOperator> {
    if s == seq![0x3cu8] || s == seq![0x4cu8, 0x54u8] {
        Some(ReqOperator::LT)
    } else if s == seq![0x3cu8, 0x3du8] || s == seq![0x4cu8, 0x45u8] {
        Some(ReqOperator::LE)
    } else if s == seq![0x3du8] || s == seq![0x3du8, 0x3du8] || s == seq![0x45u8, 0x51u8] {
        Some(ReqOperator::EQ)
    } else if s == seq![0x3eu8, 0x3du8] || s == seq![0x47u8, 0x45u8] {
        Some(ReqOperator::GE)
    } else if s == seq![0x3eu8] || s == seq![0x47u8, 0x54u8] {
        Some(ReqOperator::GT)
    } else {
        None
    }
}

/// True when the operator `op` holds between a version and the constraint's
/// version, given their order `c` (-1, 0 or 1).
pub open spec fn operator_holds(op: ReqOperator, c: int) -> bool {
    match op {
        ReqOperator::LT => c < 0,
        ReqOperator::LE => c <= 0,
        ReqOperator::EQ => c == 0,
        ReqOperator::GE => c >= 0,
        ReqOperator::GT => c > 0,
    }
}

/// The symbol of an operator: `<`, `<=`, `=`, `>=` or `>`.
pub open spec fn operator_symbol(op: ReqOperator) -> Seq<char> {
    match op {
        ReqOperator::LT => seq!['<'],
        ReqOperator::LE => seq!['<', '='],
        ReqOperator::EQ => seq!['='],
        ReqOperator::GE => seq!['>', '='],
        ReqOperator::GT => seq!['>'],
    }
}

/// True when the text `b` is exactly the two bytes `c0`, `c1`.
fn is_pair(b: &[u8], c0: u8, c1: u8) -> (r: bool)
    ensures
        r == (b@ == seq![c0, c1]),
{
    if b.len() == 2 && b[0] == c0 && b[1] == c1 {
        assert(b@ == seq![c0, c1]);
        true
    } else {
        false
    }
}

/// True when the text `b` is exactly the byte `c0`.
fn is_single(b: &[u8], c0: u8) -> (r: bool)
    ensures
        r == (b@ == seq![c0]),
{
    if b.len() == 1 && b[0] == c0 {
        assert(b@ == seq![c0]);
        true
    } else {
        false
    }
}

impl ReqOperator {
    /// The operator named by `s`: `<` or `LT`, `<=` or `LE`, `=`, `==` or
    /// `EQ`, `>=` or `GE`, `>` or `GT`. `None` for anything else.
    pub fn from_name(s: &str) -> (op: Option<ReqOperator>)
        ensures
            op == operator_named(s.spec_bytes()),
    {
        let b = s.as_bytes();
        if is_single(b, 0x3c) || is_pair(b, 0x4c, 0x54) {
            Some(ReqOperator::LT)
        } else if is_pair(b, 0x3c, 0x3d) || is_pair(b, 0x4c, 0x45) {
            Some(ReqOperator::LE)
        } else if is_single(b, 0x3d) || is_pair(b, 0x3d, 0x3d) || is_pair(b, 0x45, 0x51) {
            Some(ReqOperator::EQ)
        } else if is_pair(b, 0x3e, 0x3d) || is_pair(b, 0x47, 0x45) {
            Some(ReqOperator::GE)
        } else if is_single(b, 0x3e) || is_pair(b, 0x47, 0x54) {
            Some(ReqOperator::GT)
        } else {
            None
        }
    }
}

impl ReqOperator {
    /// Whether the operator holds between a version and the constraint's
    /// version, given their order `c` (-1, 0 or 1).
    pub fn holds_for(&self, c: i32) -> (b: bool)
        ensures
            b == operator_holds(*self, c as int),
    {
        match self {
            ReqOperator::LT => c < 0,
            ReqOperator::LE => c <= 0,
            ReqOperator::EQ => c == 0,
            ReqOperator::GE => c >= 0,
            ReqOperator::GT => c > 0,
        }
    }

    /// The symbol of the operator: `<`, `<=`, `=`, `>=` or `>`.
    pub fn symbol(&self) -> (s: &'static str)
        ensures
            s@ == operator_symbol(*self),
            operator_named(s.spec_bytes()) == Some(*self),
    {
        broadcast use vstd::string::is_ascii_spec_bytes;

        let s = match self {
            ReqOperator::LT => "<",
            ReqOperator::LE => "<=",
            ReqOperator::EQ => "=",
            ReqOperator::GE => ">=",
            ReqOperator::GT => ">",
        };
        proof {
            reveal_strlit("<");
            reveal_strlit("<=");
            reveal_strlit("=");
            reveal_strlit(">=");
            reveal_strlit(">");
            assert(vstd::string::is_ascii(s));
            let b = s.spec_bytes();
            assert(b =~= Seq::new(s@.len(), |i| s@.index(i) as u8));
            match *self {
                ReqOperator::LT => {
                    assert(b =~= seq![0x3cu8]);
                    assert(operator_named(b) == Some(ReqOperator::LT));
                },
                ReqOperator::LE => {
                    assert(b =~= seq![0x3cu8, 0x3du8]);
                    assert(operator_named(b) == Some(ReqOperator::LE));
                },
                ReqOperator::EQ => {
                    assert(b =~= seq![0x3du8]);
                    assert(b[0] == 0x3du8 && seq![0x3cu8][0] == 0x3cu8);
                    assert(operator_named(b) == Some(ReqOperator::EQ));
                },
                ReqOperator::GE => {
                    assert(b =~= seq![0x3eu8, 0x3du8]);
                    assert(operator_named(b) == Some(ReqOperator::GE));
                },
                ReqOperator::GT => {
                    assert(b =~= seq![0x3eu8]);
                    assert(b[0] == 0x3eu8 && seq![0x3cu8][0] == 0x3cu8 && seq![0x3du8][0] == 0x3du8);
                    assert(operator_named(b) == Some(ReqOperator::GT));
                },
            }
        }
        s
    }
}

} // verus!
