use vstd::prelude::*;
use vstd::arithmetic::div_mod::{lemma_div_is_ordered, lemma_div_pos_is_pos};
use crate::fixed::{
    div_fx, div_trunc, fxdiv, fxmul, iabs, lemma_fxmul_bound, lemma_mul_bound, lemma_mul_sign,
    lemma_sqrt_floor_is, lemma_square_ordered, lemma_tdiv_sign, mean2, mul_fx, sqrt_floor, sqrt_fx,
    tdiv, FX_BOUND, SCALE,
};

verus! {

/// Specific internal energy of an ideal gas: `u = p / ((gamma - 1) rho)`.
pub open spec fn spec_thermal_energy(rho: int, p: int, gamma: int) -> int {
    fxdiv(p, fxmul(gamma - SCALE, rho))
}

/// Thermal energy from density and pressure under heat-capacity ratio
/// `gamma`; the denominator must not vanish in fixed point.
pub fn thermal_energy(rho: i64, p: i64, gamma: i64) -> (r: i64)
    requires
        1 <= rho <= FX_BOUND,
        0 <= p <= FX_BOUND,
        SCALE < gamma <= FX_BOUND,
        fxmul(gamma - SCALE as int, rho as int) >= 1,
    ensures
        r == spec_thermal_energy(rho as int, p as int, gamma as int),
        r >= 0,
{
    let den: i64 = mul_fx(gamma - SCALE, rho);
    let r: i64 = div_fx(p, den);
    proof {
        lemma_tdiv_sign((p as int) * (SCALE as int), den as int);
    }
    r
}

/// Sound speed of the polytropic relation: `cs = gamma sqrt(p / rho)`.
pub open spec fn spec_sound_speed_polytropic(rho: int, p: int, gamma: int) -> int {
    fxmul(gamma, sqrt_floor(fxdiv(p, rho) * (SCALE as int)))
}

/// Polytropic sound speed from density and pressure.
pub fn sound_speed_polytropic(rho: i64, p: i64, gamma: i64) -> (r: i64)
    requires
        1 <= rho <= FX_BOUND,
        0 <= p <= FX_BOUND,
        0 <= gamma <= FX_BOUND,
        fxdiv(p as int, rho as int) <= 0x100000000000000,
    ensures
        r == spec_sound_speed_polytropic(rho as int, p as int, gamma as int),
        r >= 0,
{
    let t: i64 = div_fx(p, rho);
    proof {
        lemma_tdiv_sign((p as int) * (SCALE as int), rho as int);
    }
    let s: i64 = sqrt_fx(t);
    proof {
        lemma_sqrt_floor_is(s as int, (t as int) * (SCALE as int));
        lemma_mul_sign(gamma as int, s as int);
        lemma_tdiv_sign((gamma as int) * (s as int), SCALE as int);
    }
    mul_fx(gamma, s)
}

/// The viscous kernel `nu` of the standard artificial viscosity:
/// `h_mean dot_r_v / (r^2 + 0.01 h_mean^2)` over fixed-point values.
pub open spec fn spec_mon89_nu(r_ij: int, dot_r_v: int, h_i: int, h_j: int) -> int {
    let hm = (h_i + h_j) / 2;
    fxdiv(fxmul(hm, dot_r_v), fxmul(r_ij, r_ij) + tdiv(fxmul(hm, hm), 100))
}

/// Standard artificial viscosity (Monaghan 1989) with `alpha = 1`,
/// `beta = 2`, `eps = 0.01`: `(-cs_mean + 2 nu) nu / rho_mean`, defined
/// for an approaching pair.
pub open spec fn spec_mon89(
    r_ij: int,
    dot_r_v: int,
    cs_i: int,
    cs_j: int,
    h_i: int,
    h_j: int,
    rho_i: int,
    rho_j: int,
) -> int {
    let nu = spec_mon89_nu(r_ij, dot_r_v, h_i, h_j);
    let cm = (cs_i + cs_j) / 2;
    let rm = (rho_i + rho_j) / 2;
    fxdiv(fxmul(2 * nu - cm, nu), rm)
}

/// Standard (Monaghan 1989) artificial viscosity for an approaching pair;
/// nonnegative, so it only ever dissipates.
pub fn mon89_art_vis(
    r_ij: i64,
    dot_r_v: i64,
    cs_i: i64,
    cs_j: i64,
    h_i: i64,
    h_j: i64,
    rho_i: i64,
    rho_j: i64,
) -> (r: i64)
    requires
        -0x400000000 <= dot_r_v < 0,
        1024 <= r_ij <= FX_BOUND,
        0 <= cs_i <= FX_BOUND,
        0 <= cs_j <= FX_BOUND,
        1024 <= h_i <= 64 * SCALE,
        1024 <= h_j <= 64 * SCALE,
        1 <= rho_i <= FX_BOUND,
        1 <= rho_j <= FX_BOUND,
        iabs(spec_mon89_nu(r_ij as int, dot_r_v as int, h_i as int, h_j as int)) <= FX_BOUND,
        iabs(
            fxmul(
                2 * spec_mon89_nu(r_ij as int, dot_r_v as int, h_i as int, h_j as int) - (cs_i
                    + cs_j) / 2,
                spec_mon89_nu(r_ij as int, dot_r_v as int, h_i as int, h_j as int),
            ),
        ) <= FX_BOUND,
    ensures
        r == spec_mon89(
            r_ij as int,
            dot_r_v as int,
            cs_i as int,
            cs_j as int,
            h_i as int,
            h_j as int,
            rho_i as int,
            rho_j as int,
        ),
        r >= 0,
{
    let cs_mean: i64 = mean2(cs_i, cs_j);
    let h_mean: i64 = mean2(h_i, h_j);
    let rho_mean: i64 = mean2(rho_i, rho_j);
    let r2: i64 = mul_fx(r_ij, r_ij);
    proof {
        lemma_square_ordered(1024, r_ij as int);
        lemma_div_is_ordered(SCALE as int, (r_ij as int) * (r_ij as int), SCALE as int);
        assert((SCALE as int) / (SCALE as int) == 1) by {
            vstd::arithmetic::div_mod::lemma_div_multiples_vanish(1, SCALE as int);
        }
    }
    proof {
        lemma_fxmul_bound(r_ij as int, r_ij as int, 0x10000000000, 0x10000000000, 0x1000000000000000);
        lemma_fxmul_bound(h_mean as int, h_mean as int, 0x4000000, 0x4000000, 0x100000000);
    }
    let h2: i64 = mul_fx(h_mean, h_mean);
    proof {
        lemma_mul_sign(h_mean as int, h_mean as int);
        lemma_tdiv_sign((h_mean as int) * (h_mean as int), SCALE as int);
    }
    let eps_term: i64 = div_trunc(h2, 100);
    proof {
        lemma_tdiv_sign(h2 as int, 100);
    }
    let den: i64 = r2 + eps_term;
    proof {
        lemma_fxmul_bound(h_mean as int, dot_r_v as int, 0x4000000, 0x400000000, 0x10000000000);
    }
    let hv: i64 = mul_fx(h_mean, dot_r_v);
    proof {
        lemma_mul_sign(h_mean as int, dot_r_v as int);
        lemma_tdiv_sign((h_mean as int) * (dot_r_v as int), SCALE as int);
    }
    let nu: i64 = div_fx(hv, den);
    proof {
        lemma_tdiv_sign((hv as int) * (SCALE as int), den as int);
        lemma_mul_sign(hv as int, SCALE as int);
    }
    let t: i64 = 2 * nu - cs_mean;
    proof {
        lemma_mul_bound(t as int, nu as int, 0x30000000000, 0x10000000000);
    }
    let num: i64 = mul_fx(t, nu);
    proof {
        lemma_mul_sign(t as int, nu as int);
        lemma_tdiv_sign((t as int) * (nu as int), SCALE as int);
    }
    let r: i64 = div_fx(num, rho_mean);
    proof {
        lemma_mul_sign(num as int, SCALE as int);
        lemma_tdiv_sign((num as int) * (SCALE as int), rho_mean as int);
    }
    r
}

/// Riemann-inspired artificial viscosity (Monaghan 1997) with
/// `alpha = 1`: `0.5 v_sig dot_r_v / (r_ij (rho_i + rho_j))`.
pub open spec fn spec_mon97(
    r_ij: int,
    dot_r_v: int,
    v_sig: int,
    rho_i: int,
    rho_j: int,
) -> int {
    fxdiv(tdiv(fxmul(v_sig, dot_r_v), 2), fxmul(r_ij, rho_i + rho_j))
}

/// Riemann-inspired (Monaghan 1997) artificial viscosity for an
/// approaching pair; nonpositive under this sign convention.
pub fn mon97_art_vis(r_ij: i64, dot_r_v: i64, v_sig: i64, rho_i: i64, rho_j: i64) -> (r: i64)
    requires
        -FX_BOUND <= dot_r_v < 0,
        1024 <= r_ij <= FX_BOUND,
        0 <= v_sig <= FX_BOUND,
        1 <= rho_i <= FX_BOUND,
        1 <= rho_j <= FX_BOUND,
        fxmul(r_ij as int, rho_i + rho_j) >= 1,
        iabs(tdiv(fxmul(v_sig as int, dot_r_v as int), 2)) <= FX_BOUND,
    ensures
        r == spec_mon97(r_ij as int, dot_r_v as int, v_sig as int, rho_i as int, rho_j as int),
        r <= 0,
{
    proof {
        lemma_fxmul_bound(v_sig as int, dot_r_v as int, 0x10000000000, 0x10000000000, 0x1000000000000000);
    }
    let num: i64 = mul_fx(v_sig, dot_r_v);
    proof {
        lemma_mul_sign(v_sig as int, dot_r_v as int);
        lemma_tdiv_sign((v_sig as int) * (dot_r_v as int), SCALE as int);
    }
    let half: i64 = div_trunc(num, 2);
    proof {
        lemma_tdiv_sign(num as int, 2);
    }
    proof {
        lemma_mul_bound(r_ij as int, (rho_i + rho_j) as int, 0x10000000000, 0x20000000000);
    }
    let den: i64 = mul_fx(r_ij, rho_i + rho_j);
    let r: i64 = div_fx(half, den);
    proof {
        lemma_mul_sign(half as int, SCALE as int);
        lemma_tdiv_sign((half as int) * (SCALE as int), den as int);
    }
    r
}

} // verus!
