//! Exact order on non-negative fractions, decided without ever forming a
//! product at run time.

use vstd::prelude::*;
use vstd::arithmetic::div_mod::{lemma_fundamental_div_mod, lemma_mod_division_less_than_divisor};

verus! {

/// The fraction `a / b` is strictly smaller than `c / d`, for positive
/// denominators, stated by cross-multiplication.
pub open spec fn frac_lt_spec(a: int, b: int, c: int, d: int) -> bool {
    a * d < c * b
}

/// How the integer parts of two fractions decide their order: a smaller
/// integer part means a smaller fraction, and for equal integer parts the
/// order is the order of the remainder fractions.
proof fn lemma_frac_parts(a: int, b: int, c: int, d: int, qa: int, ra: int, qc: int, rc: int)
    by (nonlinear_arith)
    requires
        b > 0,
        d > 0,
        a == b * qa + ra,
        0 <= ra < b,
        c == d * qc + rc,
        0 <= rc < d,
    ensures
        qa < qc ==> a * d < c * b,
        qa > qc ==> !(a * d < c * b),
        qa == qc ==> ((a * d < c * b) <==> (ra * d < rc * b)),
        ra * d >= 0,
        rc * b >= 0,
        rc > 0 ==> rc * b > 0,
        ra > 0 ==> ra * d > 0,
{
}

/// Decides whether `a / b < c / d` exactly. The Euclidean descent compares
/// integer parts and then recurses on the reciprocals of the remainder
/// fractions, so only divisions are computed and no product can overflow.
pub fn frac_lt(a: u128, b: u128, c: u128, d: u128) -> (r: bool)
    requires
        b > 0,
        d > 0,
    ensures
        r == frac_lt_spec(a as int, b as int, c as int, d as int),
    decreases b + d,
{
    let qa = a / b;
    let ra = a % b;
    let qc = c / d;
    let rc = c % d;
    proof {
        lemma_fundamental_div_mod(a as int, b as int);
        lemma_mod_division_less_than_divisor(a as int, b as int);
        lemma_fundamental_div_mod(c as int, d as int);
        lemma_mod_division_less_than_divisor(c as int, d as int);
        lemma_frac_parts(
            a as int,
            b as int,
            c as int,
            d as int,
            qa as int,
            ra as int,
            qc as int,
            rc as int,
        );
    }
    if qa != qc {
        qa < qc
    } else if rc == 0 {
        // the remainder fraction on the left cannot be negative
        proof {
            assert((rc as int) * (b as int) == 0) by (nonlinear_arith)
                requires
                    rc == 0,
            ;
            assert(!frac_lt_spec(a as int, b as int, c as int, d as int));
        }
        false
    } else if ra == 0 {
        // zero against a positive remainder fraction
        proof {
            assert((ra as int) * (d as int) == 0) by (nonlinear_arith)
                requires
                    ra == 0,
            ;
            assert(frac_lt_spec(a as int, b as int, c as int, d as int));
        }
        true
    } else {
        // ra / b < rc / d  exactly when  d / rc < b / ra
        let r = frac_lt(d, rc, b, ra);
        proof {
            assert(ra * (d as int) == (d as int) * (ra as int)) by (nonlinear_arith);
            assert(rc * (b as int) == (b as int) * (rc as int)) by (nonlinear_arith);
        }
        r
    }
}

} // verus!
