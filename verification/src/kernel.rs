use vstd::prelude::*;
use vstd::arithmetic::div_mod::{
    lemma_div_is_ordered, lemma_div_multiples_vanish, lemma_div_nonincreasing,
    lemma_div_pos_is_pos,
};
use vstd::arithmetic::mul::{lemma_mul_inequality, lemma_mul_upper_bound};
use crate::fixed::{fxmul, iabs, lemma_abs_mul, lemma_mul_bound, mul_fx, SCALE};

verus! {

/// Value of the cubic-spline kernel at the scaled argument `q = r/h`:
/// `1 - (3/4) q^2 (2 - q)` below one, `(1/4)(2 - q)^3` below two, and
/// zero beyond the cutoff at two.
pub open spec fn spec_w_cubic(q: int) -> int {
    let s = SCALE as int;
    if q < s {
        s - 3 * q * q * (2 * s - q) / (4 * s * s)
    } else if q < 2 * s {
        (2 * s - q) * (2 * s - q) * (2 * s - q) / (4 * s * s)
    } else {
        0
    }
}

/// Derivative of the cubic-spline kernel with respect to `q`:
/// `(2.25 q - 3) q` below one, `-3 (0.25 q^2 - q + 1)` below two,
/// zero beyond the cutoff.
pub open spec fn spec_dw_cubic(q: int) -> int {
    let s = SCALE as int;
    if q < s {
        -(q * (12 * s - 9 * q) / (4 * s))
    } else if q < 2 * s {
        -(3 * (2 * s - q) * (2 * s - q) / (4 * s))
    } else {
        0
    }
}

/// Rate of change of the kernel with respect to the smoothing length,
/// for dimension `d`: `d W(q) + q dW/dq(q)`.
pub open spec fn spec_dwdh(q: int, d: int) -> int {
    d * spec_w_cubic(q) + fxmul(q, spec_dw_cubic(q))
}

/// Cubic-spline smoothing kernel: nonnegative weight, at most one,
/// vanishing at and beyond twice the smoothing length.
pub fn f_cubic_kernel(q: i64) -> (r: i64)
    requires
        0 <= q,
    ensures
        r == spec_w_cubic(q as int),
        0 <= r <= SCALE,
        q >= 2 * SCALE ==> r == 0,
        q == 0 ==> r == SCALE,
{
    let s = SCALE;
    if q < s {
        let qi = q as u128;
        let si = s as u128;
        proof {
            let qn = q as int;
            let sn = s as int;
            lemma_mul_inequality(qn, sn, qn);
            lemma_mul_inequality(qn * qn, sn * qn, 2 * sn - qn);
            assert((sn * qn) * (2 * sn - qn) == sn * (qn * (2 * sn - qn))) by (nonlinear_arith);
            assert(qn * (2 * sn - qn) <= sn * sn && qn * (2 * sn - qn) >= 0) by (nonlinear_arith)
                requires
                    0 <= qn <= sn,
            ;
            lemma_mul_inequality(qn * (2 * sn - qn), sn * sn, sn);
            assert(sn * (qn * (2 * sn - qn)) == (qn * (2 * sn - qn)) * sn) by (nonlinear_arith);
            assert((sn * sn) * sn == sn * sn * sn);
            assert(qn * qn * (2 * sn - qn) >= 0) by (nonlinear_arith)
                requires
                    0 <= qn <= sn,
            ;
            assert(3 * (qn * qn * (2 * sn - qn)) <= 3 * (sn * sn * sn));
        }
        let num: u128 = 3 * (qi * qi * ((2 * si) - qi));
        let den: u128 = 4 * (si * si);
        let t: u128 = num / den;
        proof {
            let qn = q as int;
            let sn = s as int;
            assert(num as int == 3 * qn * qn * (2 * sn - qn)) by (nonlinear_arith)
                requires
                    qi == qn && si == sn && num == 3 * (qi * qi * ((2 * si) - qi)) && 0 <= qn <= sn,
            ;
            assert(3 * (sn * sn * sn) <= (4 * sn * sn) * sn) by (nonlinear_arith)
                requires
                    sn > 0,
            ;
            lemma_div_is_ordered(num as int, (4 * sn * sn) * sn, 4 * sn * sn);
            lemma_div_multiples_vanish(sn, 4 * sn * sn);
            lemma_div_pos_is_pos(num as int, 4 * sn * sn);
        }
        s - (t as i64)
    } else if q < 2 * s {
        let c: u128 = (2 * s - q) as u128;
        let si = s as u128;
        proof {
            let cn = 2 * (s as int) - (q as int);
            let sn = s as int;
            lemma_mul_inequality(cn, sn, cn);
            lemma_mul_inequality(cn * cn, sn * cn, cn);
            assert(cn * cn >= 0 && cn * cn <= sn * sn && (sn * cn) * cn == sn * (cn * cn))
                by (nonlinear_arith)
                requires
                    0 <= cn <= sn,
            ;
            lemma_mul_inequality(cn * cn, sn * sn, cn);
            assert((sn * sn) * cn <= (sn * sn) * sn && (cn * cn) * cn >= 0) by (nonlinear_arith)
                requires
                    0 <= cn <= sn,
            ;
        }
        let num: u128 = c * c * c;
        let den: u128 = 4 * (si * si);
        let t: u128 = num / den;
        proof {
            let cn = 2 * (s as int) - (q as int);
            let sn = s as int;
            assert((sn * sn) * sn <= (4 * sn * sn) * sn) by (nonlinear_arith)
                requires
                    sn > 0,
            ;
            lemma_div_is_ordered(num as int, (4 * sn * sn) * sn, 4 * sn * sn);
            lemma_div_multiples_vanish(sn, 4 * sn * sn);
            lemma_div_pos_is_pos(num as int, 4 * sn * sn);
        }
        t as i64
    } else {
        0
    }
}

/// Derivative of the cubic-spline kernel: nonpositive, zero at the
/// origin and at or beyond the cutoff, with magnitude at most three.
pub fn dfdq_cubic_kernel(q: i64) -> (r: i64)
    requires
        0 <= q,
    ensures
        r == spec_dw_cubic(q as int),
        r <= 0,
        iabs(r as int) <= 3 * SCALE,
        q >= 2 * SCALE ==> r == 0,
{
    let s = SCALE;
    if q < s {
        proof {
            let qn = q as int;
            let sn = s as int;
            lemma_mul_inequality(qn, sn, 12 * sn - 9 * qn);
            assert(sn * (12 * sn - 9 * qn) <= sn * (12 * sn) && qn * (12 * sn - 9 * qn) >= 0)
                by (nonlinear_arith)
                requires
                    0 <= qn <= sn && sn > 0,
            ;
            assert(sn * (12 * sn) == (4 * sn) * (3 * sn)) by (nonlinear_arith);
            lemma_div_is_ordered(qn * (12 * sn - 9 * qn), (4 * sn) * (3 * sn), 4 * sn);
            lemma_div_multiples_vanish(3 * sn, 4 * sn);
            lemma_div_pos_is_pos(qn * (12 * sn - 9 * qn), 4 * sn);
        }
        let m: u128 = (q as u128) * ((12 * s - 9 * q) as u128);
        let den: u128 = (4 * s) as u128;
        let t: u128 = m / den;
        -(t as i64)
    } else if q < 2 * s {
        let c: u128 = (2 * s - q) as u128;
        proof {
            let cn = 2 * (s as int) - (q as int);
            let sn = s as int;
            assert(cn * cn <= 0x10000000000 && cn * cn >= 0) by (nonlinear_arith)
                requires
                    0 <= cn <= 0x100000,
            ;
            assert(3 * (cn * cn) <= (4 * sn) * (3 * sn)) by (nonlinear_arith)
                requires
                    0 <= cn <= sn && sn > 0,
            ;
        }
        let m: u128 = 3 * (c * c);
        let den: u128 = (4 * s) as u128;
        let t: u128 = m / den;
        proof {
            let cn = 2 * (s as int) - (q as int);
            let sn = s as int;
            assert(m as int == 3 * cn * cn) by (nonlinear_arith)
                requires
                    c == cn && m == 3 * (c * c),
            ;
            lemma_div_is_ordered(3 * cn * cn, (4 * sn) * (3 * sn), 4 * sn);
            lemma_div_multiples_vanish(3 * sn, 4 * sn);
            lemma_div_pos_is_pos(3 * cn * cn, 4 * sn);
        }
        -(t as i64)
    } else {
        0
    }
}

/// Kernel's rate of change with respect to the smoothing length for
/// dimension `d`; zero at and beyond the cutoff, magnitude below
/// `(2 d + 6)` scaled units.
pub fn dwdh(q: i64, d: u32) -> (r: i64)
    requires
        0 <= q,
        1 <= d <= 3,
    ensures
        r == spec_dwdh(q as int, d as int),
        q >= 2 * SCALE ==> r == 0,
        iabs(r as int) <= (2 * d + 6) * SCALE,
{
    let w: i64 = f_cubic_kernel(q);
    let dw: i64 = dfdq_cubic_kernel(q);
    proof {
        let qi = q as int;
        let dwi = dw as int;
        let si = SCALE as int;
        lemma_abs_mul(qi, dwi);
        lemma_mul_bound(d as int, w as int, d as int, si);
        if q >= 2 * SCALE {
            assert(qi * dwi == 0) by (nonlinear_arith)
                requires
                    dwi == 0,
            ;
            lemma_div_pos_is_pos(0, si);
            lemma_div_nonincreasing(0, si);
            assert((d as int) * (w as int) == 0) by (nonlinear_arith)
                requires
                    w as int == 0,
            ;
        } else {
            lemma_mul_upper_bound(iabs(qi), 2 * si, iabs(dwi), 3 * si);
            assert((2 * si) * (3 * si) == (6 * si) * si) by (nonlinear_arith);
            lemma_div_is_ordered(iabs(qi) * iabs(dwi), (6 * si) * si, si);
            lemma_div_multiples_vanish(6 * si, si);
            lemma_div_pos_is_pos(iabs(qi) * iabs(dwi), si);
        }
    }
    let t: i64 = mul_fx(q, dw);
    (d as i64) * w + t
}

} // verus!
