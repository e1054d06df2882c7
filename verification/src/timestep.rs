use vstd::prelude::*;
use vstd::arithmetic::mul::lemma_mul_inequality;
use crate::density::H_MAX;
use crate::fixed::{
    div_fx, div_fx128, div_trunc, fxdiv, fxmul, iabs, imin, is_sqrt, isqrt, lemma_fxdiv_bound, lemma_fxmul_bound,
    lemma_mul_bound, lemma_mul_sign, lemma_sqrt_floor_is, lemma_sqrt_floor_monotone, lemma_square_nonneg,
    lemma_square_ordered, lemma_tdiv_antitone, lemma_tdiv_ordered, lemma_tdiv_shrinks,
    lemma_tdiv_sign, min_i64, mul_fx, mul_fx128, sqrt_floor, sqrt_fx, tdiv, FX_BOUND, SCALE,
};
use crate::particle::{sq_dist, Particle};

verus! {

/// Sentinel for a particle that imposes no finite timestep bound.
pub const DT_INF: i64 = 0x7fffffffffffffff;

/// The safety factor three tenths, scaled.
pub const DT_SAFETY: i64 = 314572;

/// CFL bound on the timestep: `0.3 h / (cs + h |divv|)`, stiffened by
/// `1.2 (alpha cs + beta h |divv|)` in the denominator where the local
/// flow converges; the sentinel where the denominator vanishes.
pub open spec fn spec_cfl_dt(h: int, cs: int, div_v: int, alpha: int, beta: int) -> int {
    let q = fxmul(h, iabs(div_v));
    let den = if div_v < 0 {
        cs + q + tdiv(6 * (fxmul(alpha, cs) + fxmul(beta, q)), 5)
    } else {
        cs + q
    };
    if den == 0 {
        DT_INF as int
    } else {
        tdiv(3 * fxdiv(h, den), 10)
    }
}

/// CFL timestep bound of one particle.
pub fn cfl_dt(h: i64, cs: i64, div_v: i64, alpha: i64, beta: i64) -> (r: i64)
    requires
        0 <= h <= H_MAX,
        0 <= cs <= FX_BOUND,
        -0x400000000 <= div_v <= 0x400000000,
        0 <= alpha <= 4 * SCALE,
        0 <= beta <= 4 * SCALE,
    ensures
        r == spec_cfl_dt(h as int, cs as int, div_v as int, alpha as int, beta as int),
        0 <= r,
{
    let dv_abs: i64 = if div_v < 0 {
        -div_v
    } else {
        div_v
    };
    proof {
        lemma_fxmul_bound(h as int, dv_abs as int, 0x4000000, 0x400000000, 0x10000000000);
        lemma_mul_sign(h as int, dv_abs as int);
        lemma_tdiv_sign((h as int) * (dv_abs as int), SCALE as int);
    }
    let q: i64 = mul_fx(h, dv_abs);
    let den: i64 = if div_v < 0 {
        proof {
            lemma_fxmul_bound(alpha as int, cs as int, 0x400000, 0x10000000000, 0x40000000000);
            lemma_fxmul_bound(beta as int, q as int, 0x400000, 0x10000000000, 0x40000000000);
            lemma_mul_sign(alpha as int, cs as int);
            lemma_tdiv_sign((alpha as int) * (cs as int), SCALE as int);
            lemma_mul_sign(beta as int, q as int);
            lemma_tdiv_sign((beta as int) * (q as int), SCALE as int);
        }
        let stiff: i64 = 6 * (mul_fx(alpha, cs) + mul_fx(beta, q));
        proof {
            lemma_tdiv_sign(stiff as int, 5);
            lemma_tdiv_shrinks(stiff as int, 5);
        }
        cs + q + div_trunc(stiff, 5)
    } else {
        cs + q
    };
    if den == 0 {
        DT_INF
    } else {
        proof {
            lemma_mul_sign(h as int, SCALE as int);
            lemma_tdiv_sign((h as int) * (SCALE as int), den as int);
            lemma_tdiv_shrinks((h as int) * (SCALE as int), den as int);
            lemma_mul_inequality(h as int, 0x4000000, SCALE as int);
        }
        let t: i64 = div_fx(h, den);
        proof {
            lemma_tdiv_sign(3 * (t as int), 10);
        }
        div_trunc(3 * t, 10)
    }
}

/// Force bound on the timestep: `f sqrt(h / |a|)`, the sentinel for an
/// unaccelerated particle.
pub open spec fn spec_force_dt(h: int, a: int, f: int) -> int {
    if a == 0 {
        DT_INF as int
    } else {
        fxmul(f, sqrt_floor(fxdiv(h, a) * (SCALE as int)))
    }
}

/// Force timestep bound from a smoothing length and an acceleration
/// magnitude.
pub fn force_dt(h: i64, a: i64, f: i64) -> (r: i64)
    requires
        0 <= h <= H_MAX,
        0 <= a,
        0 <= f <= FX_BOUND,
    ensures
        r == spec_force_dt(h as int, a as int, f as int),
        0 <= r,
{
    if a == 0 {
        DT_INF
    } else {
        proof {
            lemma_mul_sign(h as int, SCALE as int);
            lemma_tdiv_sign((h as int) * (SCALE as int), a as int);
            lemma_tdiv_shrinks((h as int) * (SCALE as int), a as int);
            lemma_mul_inequality(h as int, 0x4000000, SCALE as int);
        }
        let t: i64 = div_fx(h, a);
        let s: i64 = sqrt_fx(t);
        proof {
            lemma_sqrt_floor_is(s as int, (t as int) * (SCALE as int));
            lemma_mul_sign(f as int, s as int);
            lemma_tdiv_sign((f as int) * (s as int), SCALE as int);
        }
        mul_fx(f, s)
    }
}

/// Larger acceleration, all else equal, never lengthens the force bound.
pub proof fn lemma_force_dt_antitone(h: int, a1: int, a2: int, f: int)
    requires
        0 <= h,
        1 <= a1 <= a2,
        0 <= f,
    ensures
        spec_force_dt(h, a2, f) <= spec_force_dt(h, a1, f),
{
    lemma_mul_sign(h, SCALE as int);
    lemma_tdiv_antitone(h * SCALE, a1, a2);
    lemma_tdiv_sign(h * SCALE, a1);
    lemma_tdiv_sign(h * SCALE, a2);
    let t1 = fxdiv(h, a1);
    let t2 = fxdiv(h, a2);
    lemma_mul_inequality(t2, t1, SCALE as int);
    lemma_mul_sign(t2, SCALE as int);
    lemma_sqrt_floor_monotone(t2 * SCALE, t1 * SCALE);
    let s1 = sqrt_floor(t1 * SCALE);
    let s2 = sqrt_floor(t2 * SCALE);
    assert(is_sqrt(s2, t2 * SCALE)) by {
        crate::fixed::lemma_sqrt_exists(t2 * SCALE);
    }
    assert(is_sqrt(s1, t1 * SCALE)) by {
        crate::fixed::lemma_sqrt_exists(t1 * SCALE);
    }
    lemma_mul_inequality(s2, s1, f);
    assert(f * s2 == s2 * f && f * s1 == s1 * f);
    lemma_mul_sign(f, s2);
    lemma_tdiv_ordered(f * s2, f * s1, SCALE as int);
    lemma_tdiv_sign(f * s2, SCALE as int);
    lemma_tdiv_sign(f * s1, SCALE as int);
}

/// Magnitude of a particle's acceleration.
pub open spec fn spec_accel_mag(p: Particle) -> int {
    sqrt_floor(p.ax * p.ax + p.ay * p.ay)
}

/// The timestep one particle allows under the CFL/force policy with the
/// standard viscosity parameters.
pub open spec fn spec_bale_dt(p: Particle, cs: int) -> int {
    imin(
        spec_force_dt(p.h as int, spec_accel_mag(p), DT_SAFETY as int),
        spec_cfl_dt(p.h as int, cs, p.divv as int, SCALE as int, 2 * SCALE as int),
    )
}

/// Running minimum of the per-particle bounds from index `j` on,
/// seeded with the bound collected so far.
pub open spec fn spec_bale_fold(ps: Seq<Particle>, cs: Seq<i64>, j: int, acc: int) -> int
    decreases ps.len() - j,
{
    if j < 0 || j >= ps.len() {
        acc
    } else {
        spec_bale_fold(ps, cs, j + 1, imin(acc, spec_bale_dt(ps[j], cs[j] as int)))
    }
}

/// Global timestep under the CFL/force (Bale) policy: the minimum of
/// every particle's bound and the configured maximum. Sound speeds are
/// supplied per particle, already evaluated by the equation of state.
#[verifier::loop_isolation(false)]
pub fn time_step_bale(particles: &Vec<Particle>, cs: &Vec<i64>, dt_max: i64) -> (r: i64)
    requires
        cs@.len() == particles@.len(),
        forall|i: int|
            0 <= i < particles@.len() ==> {
                let p = #[trigger] particles@[i];
                iabs(p.ax as int) <= FX_BOUND && iabs(p.ay as int) <= FX_BOUND && 0 <= p.h <= H_MAX
                    && -0x400000000 <= p.divv <= 0x400000000
            },
        forall|i: int| 0 <= i < cs@.len() ==> 0 <= #[trigger] cs@[i] <= FX_BOUND,
        0 <= dt_max,
    ensures
        r == spec_bale_fold(particles@, cs@, 0, dt_max as int),
        0 <= r <= dt_max,
{
    let n: usize = particles.len();
    let mut acc: i64 = dt_max;
    let mut i: usize = 0;
    while i < n
        invariant
            i <= n,
            0 <= acc <= dt_max,
            spec_bale_fold(particles@, cs@, 0, dt_max as int) == spec_bale_fold(
                particles@,
                cs@,
                i as int,
                acc as int,
            ),
        decreases n - i,
    {
        let p = particles[i];
        proof {
            lemma_mul_bound(p.ax as int, p.ax as int, 0x10000000000, 0x10000000000);
            lemma_mul_bound(p.ay as int, p.ay as int, 0x10000000000, 0x10000000000);
            lemma_square_nonneg(p.ax as int);
            lemma_square_nonneg(p.ay as int);
        }
        let sq: i128 = (p.ax as i128) * (p.ax as i128) + (p.ay as i128) * (p.ay as i128);
        let am: u128 = isqrt(sq as u128);
        proof {
            if am > 0x30000000000u128 {
                lemma_square_ordered(0x30000000001, am as int);
            }
            lemma_sqrt_floor_is(am as int, sq as int);
        }
        let amag: i64 = am as i64;
        let dta: i64 = force_dt(p.h, amag, DT_SAFETY);
        let dtc: i64 = cfl_dt(p.h, cs[i], p.divv, SCALE, 2 * SCALE);
        let dti: i64 = min_i64(dta, dtc);
        acc = min_i64(acc, dti);
        i = i + 1;
    }
    acc
}

/// Pairwise signal velocity (Monaghan 1997):
/// `0.5 (cs_i + cs_j) + 2 |dot_r_v / r_ij|`.
pub open spec fn spec_vsig(ps: Seq<Particle>, cs: Seq<i64>, i: int, j: int) -> int {
    (cs[i] + cs[j]) / 2 + 2 * iabs(
        fxdiv(crate::forces::spec_drv(ps, i, j), crate::forces::spec_pair_r(ps, i, j)),
    )
}

/// Minimum of `h_i / v_sig` over the partners `j` and beyond, seeded
/// with the bound collected so far; a degenerate signal velocity below
/// one unit imposes no bound.
pub open spec fn spec_mon_inner(ps: Seq<Particle>, cs: Seq<i64>, i: int, j: int, acc: int) -> int
    decreases ps.len() - j,
{
    if j < 0 || j >= ps.len() {
        acc
    } else {
        let v = spec_vsig(ps, cs, i, j);
        let acc2 = if v >= 1 {
            imin(acc, fxdiv(ps[i].h as int, v))
        } else {
            acc
        };
        spec_mon_inner(ps, cs, i, j + 1, acc2)
    }
}

/// Minimum of the per-particle signal-velocity bounds from index `i` on.
pub open spec fn spec_mon_outer(ps: Seq<Particle>, cs: Seq<i64>, i: int, acc: int) -> int
    decreases ps.len() - i,
{
    if i < 0 || i >= ps.len() {
        acc
    } else {
        spec_mon_outer(ps, cs, i + 1, imin(acc, spec_mon_inner(ps, cs, i, i + 1, SCALE as int)))
    }
}

/// Global timestep under the signal-velocity (Monaghan 1997) policy:
/// for every pair, `dt <= h_i / v_sig`; the minimum over all pairs,
/// scaled by the safety factor and capped by the configured maximum,
/// which alone applies to an empty or single-particle system.
#[verifier::loop_isolation(false)]
pub fn time_step_mon(particles: &Vec<Particle>, cs: &Vec<i64>, dt_max: i64) -> (r: i64)
    requires
        cs@.len() == particles@.len(),
        forall|i: int|
            0 <= i < particles@.len() ==> {
                let p = #[trigger] particles@[i];
                iabs(p.x as int) <= FX_BOUND && iabs(p.y as int) <= FX_BOUND && iabs(p.vx as int)
                    <= FX_BOUND && iabs(p.vy as int) <= FX_BOUND && 0 <= p.h <= H_MAX
            },
        forall|i: int| 0 <= i < cs@.len() ==> 0 <= #[trigger] cs@[i] <= FX_BOUND,
        forall|i: int, j: int|
            0 <= i < j < particles@.len() ==> crate::particle::sq_dist(
                #[trigger] particles@[i],
                #[trigger] particles@[j],
            ) >= 0x100000,
        0 <= dt_max,
    ensures
        particles@.len() == 0 ==> r == dt_max,
        particles@.len() > 0 ==> r == imin(
            dt_max as int,
            tdiv(3 * spec_mon_outer(particles@, cs@, 0, SCALE as int), 10),
        ),
        0 <= r <= dt_max,
{
    let n: usize = particles.len();
    if n == 0 {
        return dt_max;
    }
    let mut acc: i64 = SCALE;
    let mut i: usize = 0;
    while i < n
        invariant
            i <= n,
            0 <= acc <= SCALE,
            spec_mon_outer(particles@, cs@, 0, SCALE as int) == spec_mon_outer(
                particles@,
                cs@,
                i as int,
                acc as int,
            ),
        decreases n - i,
    {
        let pi = particles[i];
        let mut inner: i64 = SCALE;
        let mut j: usize = i + 1;
        while j < n
            invariant
                i < n,
                i + 1 <= j <= n,
                0 <= inner <= SCALE,
                spec_mon_inner(particles@, cs@, i as int, i as int + 1, SCALE as int)
                    == spec_mon_inner(particles@, cs@, i as int, j as int, inner as int),
            decreases n - j,
        {
            let pj = particles[j];
            let r_ij: i64 = crate::particle::euclidean_norm(&pi, &pj);
            proof {
                if r_ij < 1024 {
                    lemma_square_ordered((r_ij as int) + 1, 1024);
                }
                lemma_fxmul_bound(
                    (pi.vx - pj.vx) as int,
                    (pi.x - pj.x) as int,
                    0x20000000000,
                    0x20000000000,
                    0x4000000000000000,
                );
                lemma_fxmul_bound(
                    (pi.vy - pj.vy) as int,
                    (pi.y - pj.y) as int,
                    0x20000000000,
                    0x20000000000,
                    0x4000000000000000,
                );
            }
            let drv: i128 = mul_fx128((pi.vx - pj.vx) as i128, (pi.x - pj.x) as i128) + mul_fx128(
                (pi.vy - pj.vy) as i128,
                (pi.y - pj.y) as i128,
            );
            proof {
                lemma_fxdiv_bound(
                    drv as int,
                    r_ij as int,
                    0x8000000000000000,
                    1024,
                    0x2000000000000000000,
                );
            }
            let rel: i128 = div_fx128(drv, r_ij as i128);
            let rel_abs: i128 = if rel < 0 {
                -rel
            } else {
                rel
            };
            let cm: i128 = (((cs[i] as u128) + (cs[j] as u128)) / 2) as i128;
            let v: i128 = cm + 2 * rel_abs;
            if v >= 1 {
                proof {
                    lemma_tdiv_sign((pi.h as int) * (SCALE as int), v as int);
                    lemma_mul_sign(pi.h as int, SCALE as int);
                    lemma_fxdiv_bound(pi.h as int, v as int, 0x4000000, 1, 0x400000000000);
                }
                let cand: i128 = div_fx128(pi.h as i128, v);
                inner = min_i64(inner, cand as i64);
            }
            j = j + 1;
        }
        acc = min_i64(acc, inner);
        i = i + 1;
    }
    proof {
        lemma_tdiv_sign(3 * (acc as int), 10);
        lemma_tdiv_shrinks(3 * (acc as int), 10);
    }
    let scaled: i64 = div_trunc(3 * acc, 10);
    min_i64(dt_max, scaled)
}

/// Pointwise-smaller per-particle bounds give a smaller folded minimum.
pub proof fn lemma_bale_fold_pointwise(
    ps1: Seq<Particle>,
    ps2: Seq<Particle>,
    cs: Seq<i64>,
    j: int,
    acc1: int,
    acc2: int,
)
    requires
        ps1.len() == ps2.len(),
        acc2 <= acc1,
        forall|i: int|
            0 <= i < ps1.len() ==> spec_bale_dt(#[trigger] ps2[i], cs[i] as int) <= spec_bale_dt(
                ps1[i],
                cs[i] as int,
            ),
    ensures
        spec_bale_fold(ps2, cs, j, acc2) <= spec_bale_fold(ps1, cs, j, acc1),
    decreases ps1.len() - j,
{
    if j < 0 || j >= ps1.len() {
    } else {
        lemma_bale_fold_pointwise(
            ps1,
            ps2,
            cs,
            j + 1,
            imin(acc1, spec_bale_dt(ps1[j], cs[j] as int)),
            imin(acc2, spec_bale_dt(ps2[j], cs[j] as int)),
        );
    }
}

/// Increasing one particle's acceleration magnitude, everything else
/// fixed, never increases the Bale-policy timestep.
pub proof fn lemma_bale_timestep_monotone(
    ps1: Seq<Particle>,
    ps2: Seq<Particle>,
    cs: Seq<i64>,
    k: int,
    dt_max: int,
)
    requires
        ps1.len() == ps2.len(),
        0 <= k < ps1.len(),
        forall|i: int| 0 <= i < ps1.len() && i != k ==> #[trigger] ps2[i] == ps1[i],
        ps2[k].h == ps1[k].h,
        ps2[k].divv == ps1[k].divv,
        0 <= ps1[k].h,
        1 <= spec_accel_mag(ps1[k]) <= spec_accel_mag(ps2[k]),
    ensures
        spec_bale_fold(ps2, cs, 0, dt_max) <= spec_bale_fold(ps1, cs, 0, dt_max),
{
    lemma_force_dt_antitone(
        ps1[k].h as int,
        spec_accel_mag(ps1[k]),
        spec_accel_mag(ps2[k]),
        DT_SAFETY as int,
    );
    assert forall|i: int| 0 <= i < ps1.len() implies spec_bale_dt(
        #[trigger] ps2[i],
        cs[i] as int,
    ) <= spec_bale_dt(ps1[i], cs[i] as int) by {
        if i != k {
        }
    }
    lemma_bale_fold_pointwise(ps1, ps2, cs, 0, dt_max, dt_max);
}

} // verus!
