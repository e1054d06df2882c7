use vstd::prelude::*;
use vstd::arithmetic::div_mod::{
    lemma_div_is_ordered, lemma_div_is_ordered_by_denominator, lemma_div_multiples_vanish,
    lemma_div_nonincreasing, lemma_div_pos_is_pos,
};
use vstd::arithmetic::mul::{lemma_mul_inequality, lemma_mul_upper_bound};

verus! {

/// Number of integer units that stand for the real value one.
pub const SCALE: i64 = 1048576;

/// Largest magnitude accepted by the fixed-point helpers; products of two
/// such values still fit comfortably in 128 bits.
pub const FX_BOUND: i64 = 1099511627776;

/// Magnitude of a mathematical integer.
pub open spec fn iabs(a: int) -> int {
    if a < 0 {
        -a
    } else {
        a
    }
}

/// Division truncating toward zero, the machine's behaviour on signed
/// integers: the magnitudes are divided and the sign is put back.
pub open spec fn tdiv(a: int, b: int) -> int {
    if (a < 0) <==> (b < 0) {
        iabs(a) / iabs(b)
    } else {
        -(iabs(a) / iabs(b))
    }
}

/// Fixed-point product: the product of two scaled values, scaled back down.
pub open spec fn fxmul(a: int, b: int) -> int {
    tdiv(a * b, SCALE as int)
}

/// Fixed-point quotient: the quotient of two scaled values, scaled back up.
pub open spec fn fxdiv(a: int, b: int) -> int {
    tdiv(a * SCALE, b)
}

/// Truncating division on 128-bit integers.
fn tdiv_i128(a: i128, b: i128) -> (r: i128)
    requires
        b != 0,
        -0x40000000000000000000000000000000i128 <= a <= 0x40000000000000000000000000000000i128,
        -0x40000000000000000000000000000000i128 <= b <= 0x40000000000000000000000000000000i128,
    ensures
        r == tdiv(a as int, b as int),
        iabs(r as int) == iabs(a as int) / iabs(b as int),
{
    let am: u128 = if a < 0 {
        (-a) as u128
    } else {
        a as u128
    };
    let bm: u128 = if b < 0 {
        (-b) as u128
    } else {
        b as u128
    };
    let m: u128 = am / bm;
    proof {
        assert(am as int == iabs(a as int));
        assert(bm as int == iabs(b as int));
        lemma_div_nonincreasing(am as int, bm as int);
    }
    if (a < 0) != (b < 0) {
        -(m as i128)
    } else {
        m as i128
    }
}

/// Fixed-point multiply with exact truncating semantics. The factors are
/// either both moderate, or their product is known to stay representable.
pub fn mul_fx(a: i64, b: i64) -> (r: i64)
    requires
        (-FX_BOUND <= a <= FX_BOUND && -FX_BOUND <= b <= FX_BOUND) || iabs(
            (a as int) * (b as int),
        ) <= 0x7fffffffffffffff * (SCALE as int),
    ensures
        r == fxmul(a as int, b as int),
        iabs(r as int) == iabs(a as int) * iabs(b as int) / (SCALE as int),
{
    proof {
        lemma_abs_mul(a as int, b as int);
        lemma_mul_upper_bound(
            iabs(a as int),
            0x8000000000000000,
            iabs(b as int),
            0x8000000000000000,
        );
        if iabs(a as int) <= FX_BOUND && iabs(b as int) <= FX_BOUND {
            lemma_mul_upper_bound(iabs(a as int), 0x10000000000, iabs(b as int), 0x10000000000);
        }
        lemma_div_is_ordered(
            iabs(a as int) * iabs(b as int),
            0x7fffffffffffffff * (SCALE as int),
            SCALE as int,
        );
        lemma_div_multiples_vanish(0x7fffffffffffffff, SCALE as int);
        lemma_div_pos_is_pos(iabs(a as int) * iabs(b as int), SCALE as int);
    }
    let p: i128 = (a as i128) * (b as i128);
    let r: i128 = tdiv_i128(p, SCALE as i128);
    r as i64
}

/// Fixed-point divide with exact truncating semantics; the divisor must be
/// nonzero (zero separation or a vanished denominator is rejected upstream),
/// and the quotient must be known to stay representable.
pub fn div_fx(a: i64, b: i64) -> (r: i64)
    requires
        b != 0,
        -FX_BOUND <= a <= FX_BOUND || iabs(a as int) * (SCALE as int) <= 0x7fffffffffffffff * iabs(
            b as int,
        ),
    ensures
        r == fxdiv(a as int, b as int),
        iabs(r as int) == iabs(a as int) * (SCALE as int) / iabs(b as int),
{
    proof {
        assert(iabs((a as int) * (SCALE as int)) == iabs(a as int) * (SCALE as int));
        if iabs(a as int) <= FX_BOUND {
            lemma_div_nonincreasing(iabs(a as int) * (SCALE as int), iabs(b as int));
        } else {
            assert(0x7fffffffffffffff * iabs(b as int) == iabs(b as int) * 0x7fffffffffffffff);
            vstd::arithmetic::div_mod::lemma_multiply_divide_le(
                iabs(a as int) * (SCALE as int),
                iabs(b as int),
                0x7fffffffffffffff,
            );
        }
        lemma_div_pos_is_pos(iabs(a as int) * (SCALE as int), iabs(b as int));
    }
    let p: i128 = (a as i128) * (SCALE as i128);
    let r: i128 = tdiv_i128(p, b as i128);
    r as i64
}

/// The integer named by `sqrt_floor` is the floor of the square root.
pub open spec fn sqrt_floor(n: int) -> int {
    choose|r: int| is_sqrt(r, n)
}

/// A witness pins `sqrt_floor` down.
pub proof fn lemma_sqrt_floor_is(r: int, n: int)
    requires
        is_sqrt(r, n),
    ensures
        sqrt_floor(n) == r,
{
    assert(exists|x: int| is_sqrt(x, n)) by {
        assert(is_sqrt(r, n));
    }
    let c = sqrt_floor(n);
    assert(is_sqrt(c, n));
    lemma_sqrt_monotone(c, n, r, n);
    lemma_sqrt_monotone(r, n, c, n);
}

/// A fixed-point product is bounded by `m` when the plain product of the
/// factors' bounds is at most `m` scaled.
pub proof fn lemma_fxmul_bound(a: int, b: int, ca: int, cb: int, m: int)
    requires
        iabs(a) <= ca,
        iabs(b) <= cb,
        ca * cb <= m * (SCALE as int),
        0 <= m,
    ensures
        iabs(fxmul(a, b)) <= m,
        -m <= fxmul(a, b) <= m,
{
    lemma_mul_bound(a, b, ca, cb);
    lemma_abs_mul(a, b);
    lemma_tdiv_shrinks(a * b, SCALE as int);
    lemma_div_is_ordered(iabs(a * b), m * (SCALE as int), SCALE as int);
    lemma_div_multiples_vanish(m, SCALE as int);
    lemma_div_pos_is_pos(iabs(a * b), SCALE as int);
}

/// A fixed-point quotient is bounded by `m` when the divisor is at least
/// `lb` and the scaled dividend bound is at most `m lb`.
pub proof fn lemma_fxdiv_bound(a: int, b: int, ca: int, lb: int, m: int)
    requires
        iabs(a) <= ca,
        1 <= lb <= iabs(b),
        ca * (SCALE as int) <= m * lb,
        0 <= m,
    ensures
        iabs(fxdiv(a, b)) <= m,
        -m <= fxdiv(a, b) <= m,
{
    lemma_abs_mul(a, SCALE as int);
    lemma_tdiv_shrinks(a * SCALE, b as int);
    lemma_mul_inequality(iabs(a), ca, SCALE as int);
    lemma_div_is_ordered(iabs(a) * (SCALE as int), m * lb, iabs(b));
    lemma_div_is_ordered_by_denominator(m * lb, lb, iabs(b));
    lemma_mul_sign(m, lb);
    lemma_div_multiples_vanish(m, lb);
    lemma_div_pos_is_pos(iabs(a) * (SCALE as int), iabs(b));
}

/// A sign of each factor gives the sign of a product.
pub proof fn lemma_mul_sign(a: int, b: int)
    ensures
        a >= 0 && b >= 0 ==> a * b >= 0,
        a <= 0 && b <= 0 ==> a * b >= 0,
        a >= 0 && b <= 0 ==> a * b <= 0,
        a <= 0 && b >= 0 ==> a * b <= 0,
{
    assert(a >= 0 && b >= 0 ==> a * b >= 0) by (nonlinear_arith);
    assert(a <= 0 && b <= 0 ==> a * b >= 0) by (nonlinear_arith);
    assert(a >= 0 && b <= 0 ==> a * b <= 0) by (nonlinear_arith);
    assert(a <= 0 && b >= 0 ==> a * b <= 0) by (nonlinear_arith);
}

/// A truncating quotient takes the sign of dividend and divisor.
pub proof fn lemma_tdiv_sign(a: int, b: int)
    requires
        b != 0,
    ensures
        (a >= 0 && b > 0) || (a <= 0 && b < 0) ==> tdiv(a, b) >= 0,
        (a <= 0 && b > 0) || (a >= 0 && b < 0) ==> tdiv(a, b) <= 0,
{
    lemma_div_pos_is_pos(iabs(a), iabs(b));
}

/// Truncating division of a scaled value by a plain positive integer.
pub fn div_trunc(a: i64, b: i64) -> (r: i64)
    requires
        1 <= b,
        -0x7fffffffffffffff <= a,
    ensures
        r == tdiv(a as int, b as int),
        iabs(r as int) <= iabs(a as int),
{
    proof {
        lemma_div_nonincreasing(iabs(a as int), iabs(b as int));
        lemma_div_pos_is_pos(iabs(a as int), iabs(b as int));
    }
    if a < 0 {
        let m: u64 = ((-(a as i128)) as u64) / (b as u64);
        -(m as i64)
    } else {
        let m: u64 = (a as u64) / (b as u64);
        m as i64
    }
}

/// Every nonnegative integer has a floor square root.
pub proof fn lemma_sqrt_exists(n: int)
    requires
        0 <= n,
    ensures
        exists|r: int| is_sqrt(r, n),
        is_sqrt(sqrt_floor(n), n),
    decreases n,
{
    if n == 0 {
        assert(is_sqrt(0, 0));
    } else {
        lemma_sqrt_exists(n - 1);
        let p = choose|r: int| #[trigger] is_sqrt(r, n - 1);
        if (p + 1) * (p + 1) <= n {
            assert(is_sqrt(p + 1, n)) by {
                assert((p + 2) * (p + 2) > n) by (nonlinear_arith)
                    requires
                        n - 1 < (p + 1) * (p + 1) && p >= 0,
                ;
            }
        } else {
            assert(is_sqrt(p, n));
        }
    }
    let w = choose|r: int| #[trigger] is_sqrt(r, n);
    lemma_sqrt_floor_is(w, n);
}

/// Floor square roots are ordered as their nonnegative arguments are.
pub proof fn lemma_sqrt_floor_monotone(n1: int, n2: int)
    requires
        0 <= n1 <= n2,
    ensures
        sqrt_floor(n1) <= sqrt_floor(n2),
{
    lemma_sqrt_exists(n1);
    lemma_sqrt_exists(n2);
    lemma_sqrt_monotone(sqrt_floor(n1), n1, sqrt_floor(n2), n2);
}

/// The smaller of two integers.
pub open spec fn imin(a: int, b: int) -> int {
    if a <= b {
        a
    } else {
        b
    }
}

/// The smaller of two machine integers.
pub fn min_i64(a: i64, b: i64) -> (r: i64)
    ensures
        r == imin(a as int, b as int),
{
    if a <= b {
        a
    } else {
        b
    }
}

/// Half of a nonnegative sum, rounded down.
pub fn mean2(a: i64, b: i64) -> (r: i64)
    requires
        0 <= a,
        0 <= b,
        a + b <= 0x7fffffffffffffff,
    ensures
        r == (a + b) / 2,
        0 <= r,
        a <= b ==> a <= r <= b,
        b <= a ==> b <= r <= a,
{
    (((a as u64) + (b as u64)) / 2) as i64
}

/// Fixed-point multiply over 128-bit intermediates, for the wide values
/// the density solver builds up.
pub fn mul_fx128(a: i128, b: i128) -> (r: i128)
    requires
        -0x4000000000000000i128 <= a <= 0x4000000000000000i128,
        -0x4000000000000000i128 <= b <= 0x4000000000000000i128,
    ensures
        r == fxmul(a as int, b as int),
        iabs(r as int) == iabs(a as int) * iabs(b as int) / (SCALE as int),
{
    proof {
        lemma_abs_mul(a as int, b as int);
        lemma_mul_upper_bound(
            iabs(a as int),
            0x4000000000000000,
            iabs(b as int),
            0x4000000000000000,
        );
        lemma_div_nonincreasing(iabs(a as int) * iabs(b as int), SCALE as int);
        lemma_div_pos_is_pos(iabs(a as int) * iabs(b as int), SCALE as int);
    }
    let p: i128 = a * b;
    tdiv_i128(p, SCALE as i128)
}

/// Fixed-point divide over 128-bit intermediates.
pub fn div_fx128(a: i128, b: i128) -> (r: i128)
    requires
        b != 0,
        -0x10000000000000000000000000i128 <= a <= 0x10000000000000000000000000i128,
        -0x10000000000000000000000000i128 <= b <= 0x10000000000000000000000000i128,
    ensures
        r == fxdiv(a as int, b as int),
        iabs(r as int) == iabs(a as int) * (SCALE as int) / iabs(b as int),
{
    proof {
        assert(iabs((a as int) * (SCALE as int)) == iabs(a as int) * (SCALE as int));
        lemma_div_nonincreasing(iabs(a as int) * (SCALE as int), iabs(b as int));
        lemma_div_pos_is_pos(iabs(a as int) * (SCALE as int), iabs(b as int));
    }
    let p: i128 = a * (SCALE as i128);
    tdiv_i128(p, b)
}

/// The integer r is the floor of the square root of n.
pub open spec fn is_sqrt(r: int, n: int) -> bool {
    0 <= r && r * r <= n && n < (r + 1) * (r + 1)
}

/// Integer square root by bisection.
pub fn isqrt(x: u128) -> (r: u128)
    requires
        x < 0x1000000000000000000000u128,
    ensures
        is_sqrt(r as int, x as int),
{
    let mut lo: u128 = 0;
    let mut hi: u128 = 0x400000000000u128;
    proof {
        assert((0x400000000000u128 as int) * (0x400000000000u128 as int) > x);
    }
    while lo + 1 < hi
        invariant
            lo < hi,
            hi <= 0x400000000000u128,
            (lo as int) * (lo as int) <= x as int,
            (x as int) < (hi as int) * (hi as int),
        decreases hi - lo,
    {
        let mid: u128 = lo + (hi - lo) / 2;
        proof {
            lemma_mul_upper_bound(mid as int, 0x400000000000i128 as int, mid as int, 0x400000000000i128 as int);
        }
        if mid * mid <= x {
            lo = mid;
        } else {
            hi = mid;
        }
    }
    lo
}

/// Fixed-point square root of a nonnegative scaled value.
pub fn sqrt_fx(a: i64) -> (r: i64)
    requires
        0 <= a <= 0x100000000000000,
    ensures
        is_sqrt(r as int, (a as int) * (SCALE as int)),
        0 <= r <= 0x4000000000,
{
    let n: u128 = (a as u128) * (SCALE as u128);
    proof {
        lemma_mul_inequality(a as int, 0x100000000000000, SCALE as int);
    }
    let r: u128 = isqrt(n);
    proof {
        if r > 0x4000000000u128 {
            assert((r as int) * (r as int) > 0x10000000000000000000) by (nonlinear_arith)
                requires
                    r as int > 0x4000000000,
            ;
        }
    }
    r as i64
}

/// The magnitude of a product is the product of the magnitudes.
pub proof fn lemma_abs_mul(a: int, b: int)
    ensures
        iabs(a * b) == iabs(a) * iabs(b),
{
    if a >= 0 && b >= 0 {
        assert(a * b >= 0) by (nonlinear_arith)
            requires
                a >= 0 && b >= 0,
        ;
    } else if a < 0 && b < 0 {
        assert(a * b >= 0 && a * b == (-a) * (-b)) by (nonlinear_arith)
            requires
                a < 0 && b < 0,
        ;
    } else if a < 0 {
        assert(a * b <= 0 && -(a * b) == (-a) * b) by (nonlinear_arith)
            requires
                a < 0 && b >= 0,
        ;
    } else {
        assert(a * b <= 0 && -(a * b) == a * (-b)) by (nonlinear_arith)
            requires
                a >= 0 && b < 0,
        ;
    }
}

/// A product is bounded by the product of bounds on its factors.
pub proof fn lemma_mul_bound(a: int, b: int, ca: int, cb: int)
    requires
        iabs(a) <= ca,
        iabs(b) <= cb,
    ensures
        iabs(a * b) <= ca * cb,
        -(ca * cb) <= a * b <= ca * cb,
{
    lemma_abs_mul(a, b);
    lemma_mul_upper_bound(iabs(a), ca, iabs(b), cb);
}

/// A square is never negative.
pub proof fn lemma_square_nonneg(a: int)
    ensures
        a * a >= 0,
{
    assert(a * a >= 0) by (nonlinear_arith);
}

/// Squares are ordered as their nonnegative arguments are.
pub proof fn lemma_square_ordered(a: int, b: int)
    requires
        0 <= a <= b,
    ensures
        a * a <= b * b,
{
    lemma_mul_inequality(a, b, a);
    lemma_mul_inequality(a, b, b);
    assert(b * a == a * b);
}

/// A truncating quotient is no larger in magnitude than its dividend.
pub proof fn lemma_tdiv_shrinks(a: int, b: int)
    requires
        iabs(b) >= 1,
    ensures
        iabs(tdiv(a, b)) == iabs(a) / iabs(b),
        iabs(tdiv(a, b)) <= iabs(a),
        0 <= a && b >= 1 ==> tdiv(a, b) == a / b,
{
    lemma_div_pos_is_pos(iabs(a), iabs(b));
    lemma_div_nonincreasing(iabs(a), iabs(b));
}

/// On nonnegative operands a truncating quotient grows with its dividend.
pub proof fn lemma_tdiv_ordered(a1: int, a2: int, b: int)
    requires
        0 <= a1 <= a2,
        1 <= b,
    ensures
        tdiv(a1, b) <= tdiv(a2, b),
{
    lemma_div_is_ordered(a1, a2, b);
}

/// On a nonnegative dividend a truncating quotient shrinks as the divisor grows.
pub proof fn lemma_tdiv_antitone(a: int, b1: int, b2: int)
    requires
        0 <= a,
        1 <= b1 <= b2,
    ensures
        tdiv(a, b2) <= tdiv(a, b1),
{
    lemma_div_is_ordered_by_denominator(a, b1, b2);
}

/// Floor square roots are ordered as their arguments are.
pub proof fn lemma_sqrt_monotone(r1: int, n1: int, r2: int, n2: int)
    requires
        is_sqrt(r1, n1),
        is_sqrt(r2, n2),
        n1 <= n2,
    ensures
        r1 <= r2,
{
    if r1 > r2 {
        lemma_mul_upper_bound(r2 + 1, r1, r2 + 1, r1);
        assert(n2 < (r2 + 1) * (r2 + 1));
        assert((r2 + 1) * (r2 + 1) <= r1 * r1);
        assert(r1 * r1 <= n1);
    }
}

/// Powers of an integer, one at a time.
pub open spec fn unit_pow(b: int, d: nat) -> int
    decreases d,
{
    if d == 0 {
        1
    } else {
        b * unit_pow(b, (d - 1) as nat)
    }
}

/// Fixed-point power with a natural exponent.
pub open spec fn fxpow(h: int, d: nat) -> int
    decreases d,
{
    if d == 0 {
        SCALE as int
    } else {
        fxmul(fxpow(h, (d - 1) as nat), h)
    }
}

/// A fixed-point power of a base no larger than 64 stays within range.
pub proof fn lemma_fxpow_bounds(h: int, d: nat)
    requires
        0 <= h <= 64 * (SCALE as int),
    ensures
        0 <= fxpow(h, d) <= (SCALE as int) * unit_pow(64, d),
    decreases d,
{
    if d == 0 {
    } else {
        let p = fxpow(h, (d - 1) as nat);
        let u = unit_pow(64, (d - 1) as nat);
        lemma_fxpow_bounds(h, (d - 1) as nat);
        assert(1 <= u) by {
            lemma_unit_pow64_pos((d - 1) as nat);
        }
        lemma_mul_upper_bound(p, (SCALE as int) * u, h, 64 * (SCALE as int));
        assert(((SCALE as int) * u) * (64 * (SCALE as int)) == ((SCALE as int) * (64 * u))
            * (SCALE as int)) by (nonlinear_arith);
        lemma_tdiv_shrinks(p * h, SCALE as int);
        lemma_div_pos_is_pos(p * h, SCALE as int);
        lemma_div_is_ordered(p * h, ((SCALE as int) * (64 * u)) * (SCALE as int), SCALE as int);
        lemma_div_multiples_vanish((SCALE as int) * (64 * u), SCALE as int);
        assert(((SCALE as int) * (64 * u)) * (SCALE as int) == (SCALE as int) * ((SCALE as int) * (
        64 * u)));
        assert(p * h >= 0) by (nonlinear_arith)
            requires
                p >= 0 && h >= 0,
        ;
    }
}

/// Powers of 64 are at least one.
pub proof fn lemma_unit_pow64_pos(d: nat)
    ensures
        unit_pow(64, d) >= 1,
    decreases d,
{
    if d > 0 {
        lemma_unit_pow64_pos((d - 1) as nat);
        assert(64 * unit_pow(64, (d - 1) as nat) >= unit_pow(64, (d - 1) as nat));
    }
}

/// Fixed-point power of a nonnegative base, for the small dimensional
/// exponents the solver uses.
pub fn pow_fx(h: i64, d: u32) -> (r: i64)
    requires
        0 <= h <= 64 * SCALE,
        d <= 3,
    ensures
        r == fxpow(h as int, d as nat),
        0 <= r <= 0x4000000000,
{
    let mut r: i64 = SCALE;
    let mut i: u32 = 0;
    while i < d
        invariant
            0 <= i <= d,
            d <= 3,
            0 <= h <= 64 * SCALE,
            r == fxpow(h as int, i as nat),
            0 <= r <= 0x4000000000i64,
        decreases d - i,
    {
        proof {
            lemma_fxpow_bounds(h as int, (i + 1) as nat);
            assert(unit_pow(64, 0) == 1);
            assert(unit_pow(64, 1) == 64);
            assert(unit_pow(64, 2) == 64 * unit_pow(64, 1));
            assert(unit_pow(64, 3) == 64 * unit_pow(64, 2));
        }
        r = mul_fx(r, h);
        i = i + 1;
    }
    r
}

} // verus!
