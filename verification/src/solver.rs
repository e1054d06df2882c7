use vstd::prelude::*;
use vstd::arithmetic::div_mod::{lemma_div_nonincreasing, lemma_div_pos_is_pos};
use crate::density::{
    all_pos_bounded, density_by_smoothing_length, density_kernel, lemma_fxpow_low, neigh_ok,
    omega, spec_density_by_h, spec_density_kernel, spec_omega, spec_omega_den, spec_w_sum,
    spec_dwdh_sum, H_MAX, H_MIN,
};
use crate::fixed::{
    div_fx128, div_trunc, fxdiv, fxmul, fxpow, iabs, lemma_fxdiv_bound, lemma_fxmul_bound,
    lemma_mul_bound, mul_fx, mul_fx128, pow_fx, tdiv, FX_BOUND, SCALE,
};
use crate::particle::Particle;

verus! {

/// Root-finding residual: the smoothing-length density minus the
/// kernel-summed density at smoothing length `h`.
pub open spec fn spec_f(
    ps: Seq<Particle>,
    ii: int,
    ns: Seq<usize>,
    dm: int,
    h: int,
    eta: int,
    sigma: int,
    d: int,
) -> int {
    spec_density_by_h(dm, h, eta, d as nat) - spec_density_kernel(
        ps,
        ii,
        ns,
        dm,
        h,
        sigma,
        d as nat,
    )
}

/// Derivative of the residual: `-d rho_h omega / h`, with `omega`
/// evaluated at the kernel-summed density.
pub open spec fn spec_df(
    ps: Seq<Particle>,
    ii: int,
    ns: Seq<usize>,
    dm: int,
    h: int,
    eta: int,
    sigma: int,
    d: int,
) -> int {
    -(d * fxdiv(
        fxmul(
            spec_density_by_h(dm, h, eta, d as nat),
            spec_omega(
                ps,
                ii,
                ns,
                dm,
                h,
                spec_density_kernel(ps, ii, ns, dm, h, sigma, d as nat),
                sigma,
                d,
            ),
        ),
        h,
    ))
}

/// One Newton-Raphson solve for the smoothing length of particle `ii`,
/// over a fixed neighbor snapshot, with an iteration budget `fuel`.
/// Zero is the sentinel for a failed solve: budget exhausted, a
/// collapsed grad-h denominator, a vanished derivative, or an iterate
/// that left the representable range; the caller then freezes `h`.
pub open spec fn spec_nr_solve(
    ps: Seq<Particle>,
    ii: int,
    ns: Seq<usize>,
    dm: int,
    eta: int,
    sigma: int,
    d: int,
    tol: int,
    h: int,
    fuel: nat,
) -> int
    decreases fuel,
{
    if fuel == 0 {
        0
    } else {
        let rho_k = spec_density_kernel(ps, ii, ns, dm, h, sigma, d as nat);
        if spec_omega_den(h, rho_k, d) < SCALE {
            0
        } else {
            let f = spec_f(ps, ii, ns, dm, h, eta, sigma, d);
            let df = spec_df(ps, ii, ns, dm, h, eta, sigma, d);
            if df == 0 {
                0
            } else {
                let hn = iabs(h - fxdiv(f, df));
                if hn < H_MIN || hn > H_MAX {
                    0
                } else if iabs(hn - h) <= tol {
                    hn
                } else {
                    spec_nr_solve(ps, ii, ns, dm, eta, sigma, d, tol, hn, (fuel - 1) as nat)
                }
            }
        }
    }
}

/// Residual and derivative of the smoothing-length equation at `h`.
pub fn f_iter(
    particles: &Vec<Particle>,
    ii: usize,
    neigh_particles: &Vec<usize>,
    dm: i64,
    h: i64,
    eta: i64,
    sigma: i64,
    d: u32,
) -> (r: (i64, i64))
    requires
        ii < particles@.len(),
        all_pos_bounded(particles@),
        neigh_ok(neigh_particles@, particles@.len() as int),
        0 <= dm <= 0x400000,
        0 <= eta <= 0x400000,
        0 <= sigma <= 0x400000,
        1 <= d <= 3,
        H_MIN <= h <= H_MAX,
        spec_omega_den(
            h as int,
            spec_density_kernel(
                particles@,
                ii as int,
                neigh_particles@,
                dm as int,
                h as int,
                sigma as int,
                d as nat,
            ),
            d as int,
        ) >= SCALE,
        iabs(
            spec_df(
                particles@,
                ii as int,
                neigh_particles@,
                dm as int,
                h as int,
                eta as int,
                sigma as int,
                d as int,
            ),
        ) <= 0x7fffffffffffffff,
    ensures
        r.0 == spec_f(
            particles@,
            ii as int,
            neigh_particles@,
            dm as int,
            h as int,
            eta as int,
            sigma as int,
            d as int,
        ),
        r.1 == spec_df(
            particles@,
            ii as int,
            neigh_particles@,
            dm as int,
            h as int,
            eta as int,
            sigma as int,
            d as int,
        ),
{
    let rho_k: i64 = density_kernel(particles, ii, neigh_particles, dm, h, sigma, d);
    let omeg: i64 = omega(particles, ii, neigh_particles, dm, h, rho_k, sigma, d);
    let rho_h: i64 = density_by_smoothing_length(dm, h, eta, d);
    let f: i64 = rho_h - rho_k;
    proof {
        lemma_fxmul_bound(
            rho_h as int,
            omeg as int,
            0x10000000000,
            0x10000000000,
            0x1000000000000000,
        );
    }
    let mo: i128 = mul_fx128(rho_h as i128, omeg as i128);
    proof {
        lemma_fxdiv_bound(
            mo as int,
            h as int,
            0x1000000000000000,
            65536,
            0x10000000000000000000,
        );
    }
    let t: i128 = div_fx128(mo, h as i128);
    proof {
        lemma_mul_bound(d as int, t as int, 3, 0x10000000000000000000);
    }
    let df_wide: i128 = -((d as i128) * t);
    let df: i64 = df_wide as i64;
    proof {
        assert(iabs(df_wide as int) <= 0x30000000000000000000);
    }
    (f, df)
}

/// Newton-Raphson search for the self-consistent smoothing length of
/// particle `ii` over a fixed neighbor snapshot; returns the sentinel
/// zero when no acceptable iterate was reached within the budget.
#[verifier::loop_isolation(false)]
pub fn newton_raphson(
    ii: usize,
    particles: &Vec<Particle>,
    neigh_particles: &Vec<usize>,
    dm: i64,
    h_guess: i64,
    eta: i64,
    sigma: i64,
    d: u32,
    tol: i64,
    it: u32,
) -> (h: i64)
    requires
        ii < particles@.len(),
        all_pos_bounded(particles@),
        neigh_ok(neigh_particles@, particles@.len() as int),
        0 <= dm <= 0x400000,
        0 <= eta <= 0x400000,
        0 <= sigma <= 0x400000,
        1 <= d <= 3,
        H_MIN <= h_guess <= H_MAX,
        0 <= tol <= FX_BOUND,
    ensures
        h == spec_nr_solve(
            particles@,
            ii as int,
            neigh_particles@,
            dm as int,
            eta as int,
            sigma as int,
            d as int,
            tol as int,
            h_guess as int,
            it as nat,
        ),
        h == 0 || H_MIN <= h <= H_MAX,
{
    let mut h_old: i64 = h_guess;
    let mut i: u32 = 0;
    while i < it
        invariant
            i <= it,
            H_MIN <= h_old <= H_MAX,
            spec_nr_solve(
                particles@,
                ii as int,
                neigh_particles@,
                dm as int,
                eta as int,
                sigma as int,
                d as int,
                tol as int,
                h_guess as int,
                it as nat,
            ) == spec_nr_solve(
                particles@,
                ii as int,
                neigh_particles@,
                dm as int,
                eta as int,
                sigma as int,
                d as int,
                tol as int,
                h_old as int,
                (it - i) as nat,
            ),
        decreases it - i,
    {
        let rho_k: i64 = density_kernel(particles, ii, neigh_particles, dm, h_old, sigma, d);
        let hp: i64 = pow_fx(h_old, d);
        let hr: i128 = mul_fx128(hp as i128, rho_k as i128);
        proof {
            lemma_fxmul_bound(
                hp as int,
                rho_k as int,
                0x4000000000,
                0x100000000000000,
                0x4000000000000000000,
            );
            lemma_mul_bound(d as int, hr as int, 3, 0x4000000000000000000);
        }
        let den2: i128 = (d as i128) * hr;
        if den2 < SCALE as i128 {
            return 0;
        }
        let omeg: i64 = omega(particles, ii, neigh_particles, dm, h_old, rho_k, sigma, d);
        let rho_h: i64 = density_by_smoothing_length(dm, h_old, eta, d);
        let f: i64 = rho_h - rho_k;
        proof {
            lemma_fxmul_bound(
                rho_h as int,
                omeg as int,
                0x10000000000,
                0xC000100000,
                0xC00010000000000,
            );
        }
        let mo: i128 = mul_fx128(rho_h as i128, omeg as i128);
        proof {
            lemma_fxdiv_bound(
                mo as int,
                h_old as int,
                0xC00010000000000,
                65536,
                0xC000100000000000,
            );
        }
        let t: i128 = div_fx128(mo, h_old as i128);
        proof {
            lemma_mul_bound(d as int, t as int, 3, 0xC000100000000000);
        }
        let df: i128 = -((d as i128) * t);
        if df == 0 {
            return 0;
        }
        proof {
            lemma_fxdiv_bound(f as int, df as int, 0x200000000000000, 1, 0x20000000000000000000);
        }
        let delta: i128 = div_fx128(f as i128, df);
        let hn_wide: i128 = (h_old as i128) - delta;
        let habs: i128 = if hn_wide < 0 {
            -hn_wide
        } else {
            hn_wide
        };
        if habs < (H_MIN as i128) || habs > (H_MAX as i128) {
            return 0;
        }
        let h_new: i64 = habs as i64;
        let dif: i64 = if h_new > h_old {
            h_new - h_old
        } else {
            h_old - h_new
        };
        if dif <= tol {
            return h_new;
        }
        h_old = h_new;
        i = i + 1;
    }
    0
}

/// Predictor for the next smoothing length:
/// `h (1 + dt dm divv / d)`.
pub open spec fn spec_seed(p: Particle, dt: int, dm: int, d: int) -> int {
    fxmul(p.h as int, (SCALE as int) + tdiv(fxmul(fxmul(dt, dm), p.divv as int), d))
}

/// The committed smoothing length of one particle after a solve: the
/// solver's result, or the previous value when the solve failed or the
/// predictor left the representable range.
pub open spec fn spec_h_committed(
    ps: Seq<Particle>,
    i: int,
    ns: Seq<usize>,
    dm: int,
    eta: int,
    sigma: int,
    d: int,
    tol: int,
    dt: int,
    it: nat,
) -> int {
    let seed = spec_seed(ps[i], dt, dm, d);
    let sol = if H_MIN <= seed <= H_MAX {
        spec_nr_solve(ps, i, ns, dm, eta, sigma, d, tol, seed, it)
    } else {
        0
    };
    if sol == 0 {
        ps[i].h as int
    } else {
        sol
    }
}

/// One density/smoothing-length pass over every particle: each particle's
/// `h` is advanced by the predictor, refined by the Newton-Raphson solve
/// over its own neighbor snapshot, frozen on failure, and its density is
/// recomputed from the (possibly stale) snapshot at the committed `h`.
/// Only `h` and `rho` change.
#[verifier::loop_isolation(false)]
pub fn smoothing_length(
    particles: &mut Vec<Particle>,
    neighbors: &Vec<Vec<usize>>,
    dm: i64,
    eta: i64,
    sigma: i64,
    d: u32,
    tol: i64,
    it: u32,
    dt: i64,
) -> (n_frozen: usize)
    requires
        neighbors@.len() == old(particles)@.len(),
        all_pos_bounded(old(particles)@),
        forall|i: int|
            0 <= i < old(particles)@.len() ==> neigh_ok(
                (#[trigger] neighbors@[i])@,
                old(particles)@.len() as int,
            ),
        forall|i: int|
            0 <= i < old(particles)@.len() ==> H_MIN <= (#[trigger] old(particles)@[i]).h
                <= H_MAX,
        forall|i: int|
            0 <= i < old(particles)@.len() ==> iabs(
                (#[trigger] old(particles)@[i]).divv as int,
            ) <= FX_BOUND,
        0 <= dm <= 0x400000,
        0 <= eta <= 0x400000,
        0 <= sigma <= 0x400000,
        1 <= d <= 3,
        0 <= tol <= FX_BOUND,
        0 <= dt <= SCALE,
    ensures
        final(particles)@.len() == old(particles)@.len(),
        forall|i: int|
            0 <= i < final(particles)@.len() ==> (#[trigger] final(particles)@[i]).h == spec_h_committed(
                old(particles)@,
                i,
                neighbors@[i]@,
                dm as int,
                eta as int,
                sigma as int,
                d as int,
                tol as int,
                dt as int,
                it as nat,
            ),
        forall|i: int|
            0 <= i < final(particles)@.len() ==> (#[trigger] final(particles)@[i]).rho == spec_density_kernel(
                old(particles)@,
                i,
                neighbors@[i]@,
                dm as int,
                spec_h_committed(
                    old(particles)@,
                    i,
                    neighbors@[i]@,
                    dm as int,
                    eta as int,
                    sigma as int,
                    d as int,
                    tol as int,
                    dt as int,
                    it as nat,
                ),
                sigma as int,
                d as nat,
            ),
        forall|i: int|
            0 <= i < final(particles)@.len() ==> H_MIN <= (#[trigger] final(particles)@[i]).h <= H_MAX,
        forall|i: int|
            0 <= i < final(particles)@.len() ==> {
                let p = #[trigger] final(particles)@[i];
                let q = old(particles)@[i];
                p.x == q.x && p.y == q.y && p.vx == q.vx && p.vy == q.vy && p.ax == q.ax && p.ay
                    == q.ay && p.u == q.u && p.du == q.du && p.divv == q.divv
            },
{
    let ghost ps0 = particles@;
    let n: usize = particles.len();
    let mut results: Vec<(i64, i64)> = Vec::new();
    let mut frozen: usize = 0;
    let mut i: usize = 0;
    while i < n
        invariant
            i <= n,
            frozen <= i,
            particles@ == ps0,
            results@.len() == i as int,
            forall|j: int|
                0 <= j < i as int ==> (#[trigger] results@[j]).0 == spec_h_committed(
                    ps0,
                    j,
                    neighbors@[j]@,
                    dm as int,
                    eta as int,
                    sigma as int,
                    d as int,
                    tol as int,
                    dt as int,
                    it as nat,
                ),
            forall|j: int|
                0 <= j < i as int ==> H_MIN <= (#[trigger] results@[j]).0 <= H_MAX,
            forall|j: int|
                0 <= j < i as int ==> (#[trigger] results@[j]).1 == spec_density_kernel(
                    ps0,
                    j,
                    neighbors@[j]@,
                    dm as int,
                    results@[j].0 as int,
                    sigma as int,
                    d as nat,
                ),
        decreases n - i,
    {
        let p = particles[i];
        let t1: i64 = mul_fx(dt, dm);
        proof {
            lemma_fxmul_bound(dt as int, dm as int, 0x100000, 0x400000, 0x400000);
            lemma_fxmul_bound(t1 as int, p.divv as int, 0x400000, 0x10000000000, 0x40000000000);
        }
        let t2: i64 = mul_fx(t1, p.divv);
        let t3: i64 = div_trunc(t2, d as i64);
        proof {
            lemma_fxmul_bound(
                p.h as int,
                (SCALE as int) + (t3 as int),
                0x4000000,
                0x40000200000,
                0x4000020000000,
            );
        }
        let seed: i64 = mul_fx(p.h, SCALE + t3);
        let sol: i64 = if seed >= H_MIN && seed <= H_MAX {
            newton_raphson(i, particles, &neighbors[i], dm, seed, eta, sigma, d, tol, it)
        } else {
            0
        };
        let h_next: i64 = if sol == 0 {
            frozen = frozen + 1;
            p.h
        } else {
            sol
        };
        let rho_next: i64 = density_kernel(particles, i, &neighbors[i], dm, h_next, sigma, d);
        results.push((h_next, rho_next));
        i = i + 1;
    }
    let mut k: usize = 0;
    while k < n
        invariant
            k <= n,
            particles@.len() == n as int,
            results@.len() == n as int,
            forall|j: int|
                0 <= j < n as int ==> (#[trigger] results@[j]).0 == spec_h_committed(
                    ps0,
                    j,
                    neighbors@[j]@,
                    dm as int,
                    eta as int,
                    sigma as int,
                    d as int,
                    tol as int,
                    dt as int,
                    it as nat,
                ),
            forall|j: int|
                0 <= j < n as int ==> H_MIN <= (#[trigger] results@[j]).0 <= H_MAX,
            forall|j: int|
                0 <= j < n as int ==> (#[trigger] results@[j]).1 == spec_density_kernel(
                    ps0,
                    j,
                    neighbors@[j]@,
                    dm as int,
                    results@[j].0 as int,
                    sigma as int,
                    d as nat,
                ),
            forall|j: int|
                k as int <= j < n as int ==> (#[trigger] particles@[j]) == ps0[j],
            forall|j: int|
                0 <= j < k as int ==> {
                    let p = #[trigger] particles@[j];
                    let q = ps0[j];
                    p.h == results@[j].0 && p.rho == results@[j].1 && p.x == q.x && p.y == q.y
                        && p.vx == q.vx && p.vy == q.vy && p.ax == q.ax && p.ay == q.ay && p.u
                        == q.u && p.du == q.du && p.divv == q.divv
                },
        decreases n - k,
    {
        let mut p = particles[k];
        let res: (i64, i64) = results[k];
        p.h = res.0;
        p.rho = res.1;
        particles[k] = p;
        k = k + 1;
    }
    frozen
}

/// An isolated particle, one with an empty neighbor list, never commits a
/// new smoothing length: its kernel-summed density is zero, the grad-h
/// denominator collapses, and the solver reports the sentinel, so the
/// caller leaves `h` exactly as it was.
pub proof fn lemma_isolated_particle_freezes(
    ps: Seq<Particle>,
    ii: int,
    ns: Seq<usize>,
    dm: int,
    eta: int,
    sigma: int,
    d: int,
    tol: int,
    h: int,
    fuel: nat,
)
    requires
        ns.len() == 0,
        H_MIN <= h <= H_MAX,
        1 <= d <= 3,
    ensures
        spec_nr_solve(ps, ii, ns, dm, eta, sigma, d, tol, h, fuel) == 0,
{
    if fuel > 0 {
        lemma_fxpow_low(h, d as nat);
        let hp = fxpow(h, d as nat);
        assert(spec_w_sum(ps, ii, ns, h, ns.len()) == 0);
        lemma_div_pos_is_pos(0, SCALE as int);
        lemma_div_nonincreasing(0, SCALE as int);
        assert(fxmul(0, dm) == 0);
        assert(fxmul(0, sigma) == 0);
        lemma_div_pos_is_pos(0, iabs(hp));
        lemma_div_nonincreasing(0, iabs(hp));
        assert(fxdiv(0, hp) == 0);
        let rho_k = spec_density_kernel(ps, ii, ns, dm, h, sigma, d as nat);
        assert(rho_k == 0);
        assert(fxmul(hp, 0) == 0);
        assert(spec_omega_den(h, 0, d) == 0);
    }
}

} // verus!
