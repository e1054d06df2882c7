use vstd::prelude::*;
use vstd::arithmetic::div_mod::{
    lemma_div_is_ordered, lemma_div_multiples_vanish, lemma_div_pos_is_pos,
};
use vstd::arithmetic::mul::lemma_mul_inequality;
use crate::fixed::{
    div_fx, div_fx128, fxdiv, fxmul, fxpow, iabs, lemma_abs_mul, lemma_fxdiv_bound,
    lemma_fxmul_bound, lemma_mul_bound, lemma_mul_sign, lemma_square_ordered, lemma_tdiv_sign,
    mul_fx, mul_fx128, pow_fx, sqrt_floor, tdiv, FX_BOUND, SCALE,
};
use crate::kernel::{dwdh, f_cubic_kernel, spec_dwdh, spec_w_cubic};
use crate::particle::{euclidean_norm, pos_bounded, sq_dist, Particle};

verus! {

/// Smallest smoothing length the solver accepts (one sixteenth, scaled).
pub const H_MIN: i64 = 65536;

/// Largest smoothing length the solver accepts (sixty-four, scaled).
pub const H_MAX: i64 = 67108864;

/// The scalar inputs of the density pipeline: particle mass, ratio
/// `eta` and kernel normalization `sigma` at most four (scaled), and a
/// dimension between one and three.
pub open spec fn params_ok(dm: int, eta: int, sigma: int, d: int) -> bool {
    0 <= dm <= 0x400000 && 0 <= eta <= 0x400000 && 0 <= sigma <= 0x400000 && 1 <= d <= 3
}

/// A neighbor list indexes the particle array and is modestly sized.
pub open spec fn neigh_ok(ns: Seq<usize>, len: int) -> bool {
    ns.len() <= 4096 && forall|k: int| 0 <= k < ns.len() ==> (#[trigger] ns[k]) < len
}

/// Every coordinate in the array is representable.
pub open spec fn all_pos_bounded(ps: Seq<Particle>) -> bool {
    forall|j: int| 0 <= j < ps.len() ==> pos_bounded(#[trigger] ps[j])
}

/// Scaled kernel argument `r/h` between particles `ii` and `j`.
pub open spec fn spec_q(ps: Seq<Particle>, ii: int, j: int, h: int) -> int {
    fxdiv(sqrt_floor(sq_dist(ps[ii], ps[j])), h)
}

/// Kernel-weight sum over the first `k` neighbors.
pub open spec fn spec_w_sum(ps: Seq<Particle>, ii: int, ns: Seq<usize>, h: int, k: nat) -> int
    decreases k,
{
    if k == 0 {
        0
    } else {
        spec_w_sum(ps, ii, ns, h, (k - 1) as nat) + spec_w_cubic(
            spec_q(ps, ii, ns[k - 1] as int, h),
        )
    }
}

/// Sum of the kernel's smoothing-length derivative over the first `k`
/// neighbors.
pub open spec fn spec_dwdh_sum(
    ps: Seq<Particle>,
    ii: int,
    ns: Seq<usize>,
    h: int,
    d: int,
    k: nat,
) -> int
    decreases k,
{
    if k == 0 {
        0
    } else {
        spec_dwdh_sum(ps, ii, ns, h, d, (k - 1) as nat) + spec_dwdh(
            spec_q(ps, ii, ns[k - 1] as int, h),
            d,
        )
    }
}

/// Density implied by the smoothing-length/volume relation:
/// `rho = dm (eta / h)^d`.
pub open spec fn spec_density_by_h(dm: int, h: int, eta: int, d: nat) -> int {
    fxmul(dm, fxpow(fxdiv(eta, h), d))
}

/// Kernel-summed density over a neighbor list:
/// `(sum W) dm sigma / h^d`.
pub open spec fn spec_density_kernel(
    ps: Seq<Particle>,
    ii: int,
    ns: Seq<usize>,
    dm: int,
    h: int,
    sigma: int,
    d: nat,
) -> int {
    fxdiv(fxmul(fxmul(spec_w_sum(ps, ii, ns, h, ns.len()), dm), sigma), fxpow(h, d))
}

/// Denominator of the grad-h correction: `h^d rho d`.
pub open spec fn spec_omega_den(h: int, rho: int, d: int) -> int {
    d * fxmul(fxpow(h, d as nat), rho)
}

/// Grad-h correction factor:
/// `omega = 1 - (sum dW/dh) dm sigma / (h^d rho d)`.
pub open spec fn spec_omega(
    ps: Seq<Particle>,
    ii: int,
    ns: Seq<usize>,
    dm: int,
    h: int,
    rho: int,
    sigma: int,
    d: int,
) -> int {
    (SCALE as int) - fxdiv(
        fxmul(fxmul(spec_dwdh_sum(ps, ii, ns, h, d, ns.len()), dm), sigma),
        spec_omega_den(h, rho, d),
    )
}

/// A power of a smoothing length in range never vanishes in fixed point.
pub proof fn lemma_fxpow_low(h: int, d: nat)
    requires
        H_MIN <= h <= H_MAX,
        1 <= d <= 4,
    ensures
        fxpow(h, d) >= 1,
        fxpow(h, 1) == h,
{
    let s = SCALE as int;
    lemma_mul_sign(s, h);
    lemma_abs_mul(s, h);
    lemma_div_multiples_vanish(h, s);
    assert(fxpow(h, 0) == s);
    assert(fxpow(h, 1) == fxmul(fxpow(h, 0), h));
    assert(fxpow(h, 1) == h);
    lemma_square_ordered(65536, h);
    lemma_div_is_ordered(0x100000000, h * h, s);
    lemma_mul_sign(h, h);
    lemma_abs_mul(h, h);
    assert(fxpow(h, 2) == tdiv(fxpow(h, 1) * h, s));
    assert(fxpow(h, 2) >= 4096);
    if d >= 3 {
        let p2 = fxpow(h, 2);
        lemma_mul_inequality(4096, p2, h);
        lemma_mul_sign(p2, h);
        lemma_abs_mul(p2, h);
        lemma_div_is_ordered(4096 * h, p2 * h, s);
        lemma_div_is_ordered(268435456int, 4096 * h, s);
        assert(fxpow(h, 3) >= 256);
        if d == 4 {
            let p3 = fxpow(h, 3);
            lemma_mul_inequality(256, p3, h);
            lemma_mul_sign(p3, h);
            lemma_abs_mul(p3, h);
            lemma_div_is_ordered(256 * h, p3 * h, s);
            lemma_div_is_ordered(16777216int, 256 * h, s);
            assert(fxpow(h, 4) >= 16);
        }
    }
}

/// Density from the smoothing-length relation `rho = dm (eta/h)^d`.
pub fn density_by_smoothing_length(dm: i64, h: i64, eta: i64, d: u32) -> (r: i64)
    requires
        0 <= dm <= 0x400000,
        0 <= eta <= 0x400000,
        1 <= d <= 3,
        H_MIN <= h <= H_MAX,
    ensures
        r == spec_density_by_h(dm as int, h as int, eta as int, d as nat),
        0 <= r <= 0x10000000000,
{
    proof {
        lemma_fxdiv_bound(eta as int, h as int, 0x400000, 65536, 0x4000000);
    }
    let vol: i64 = div_fx(eta, h);
    proof {
        lemma_mul_sign(eta as int, SCALE as int);
        lemma_tdiv_sign((eta as int) * (SCALE as int), h as int);
    }
    let pw: i64 = pow_fx(vol, d);
    proof {
        lemma_mul_sign(dm as int, pw as int);
        lemma_tdiv_sign((dm as int) * (pw as int), SCALE as int);
        lemma_fxmul_bound(dm as int, pw as int, 0x400000, 0x4000000000, 0x10000000000);
    }
    mul_fx(dm, pw)
}

/// Kernel-summed density of particle `ii` over its neighbor list.
#[verifier::loop_isolation(false)]
pub fn density_kernel(
    particles: &Vec<Particle>,
    ii: usize,
    neigh_particles: &Vec<usize>,
    dm: i64,
    h: i64,
    sigma: i64,
    d: u32,
) -> (r: i64)
    requires
        ii < particles@.len(),
        all_pos_bounded(particles@),
        neigh_ok(neigh_particles@, particles@.len() as int),
        0 <= dm <= 0x400000,
        0 <= sigma <= 0x400000,
        1 <= d <= 3,
        H_MIN <= h <= H_MAX,
    ensures
        r == spec_density_kernel(
            particles@,
            ii as int,
            neigh_particles@,
            dm as int,
            h as int,
            sigma as int,
            d as nat,
        ),
        0 <= r <= 0x100000000000000,
{
    let n: usize = neigh_particles.len();
    let mut sumw: i64 = 0;
    let mut k: usize = 0;
    while k < n
        invariant
            k <= n,
            sumw == spec_w_sum(particles@, ii as int, neigh_particles@, h as int, k as nat),
            0 <= sumw <= k * 1048576,
        decreases n - k,
    {
        let j: usize = neigh_particles[k];
        let r: i64 = euclidean_norm(&particles[ii], &particles[j]);
        proof {
            assert(iabs(r as int) * (SCALE as int) <= 0x30000000000 * (SCALE as int));
        }
        let q: i64 = div_fx(r, h);
        proof {
            lemma_mul_sign(r as int, SCALE as int);
            lemma_tdiv_sign((r as int) * (SCALE as int), h as int);
        }
        let w: i64 = f_cubic_kernel(q);
        sumw = sumw + w;
        k = k + 1;
    }
    proof {
        lemma_fxmul_bound(sumw as int, dm as int, 0x100000000, 0x400000, 0x400000000);
        lemma_mul_sign(sumw as int, dm as int);
        lemma_tdiv_sign((sumw as int) * (dm as int), SCALE as int);
    }
    let t1: i64 = mul_fx(sumw, dm);
    proof {
        lemma_fxmul_bound(t1 as int, sigma as int, 0x400000000, 0x400000, 0x1000000000);
        lemma_mul_sign(t1 as int, sigma as int);
        lemma_tdiv_sign((t1 as int) * (sigma as int), SCALE as int);
    }
    let t2: i64 = mul_fx(t1, sigma);
    proof {
        lemma_fxpow_low(h as int, d as nat);
    }
    let hp: i64 = pow_fx(h, d);
    proof {
        lemma_mul_sign(t2 as int, SCALE as int);
        lemma_tdiv_sign((t2 as int) * (SCALE as int), hp as int);
        lemma_fxdiv_bound(t2 as int, hp as int, 0x1000000000, 1, 0x100000000000000);
    }
    div_fx(t2, hp)
}

/// Grad-h correction factor `omega` of particle `ii`; the fixed-point
/// denominator `h^d rho d` must not have collapsed (the solver checks it
/// and freezes the particle otherwise).
#[verifier::loop_isolation(false)]
pub fn omega(
    particles: &Vec<Particle>,
    ii: usize,
    neigh_particles: &Vec<usize>,
    dm: i64,
    h: i64,
    rho: i64,
    sigma: i64,
    d: u32,
) -> (r: i64)
    requires
        ii < particles@.len(),
        all_pos_bounded(particles@),
        neigh_ok(neigh_particles@, particles@.len() as int),
        0 <= dm <= 0x400000,
        0 <= sigma <= 0x400000,
        1 <= d <= 3,
        H_MIN <= h <= H_MAX,
        0 <= rho <= 0x100000000000000,
        spec_omega_den(h as int, rho as int, d as int) >= SCALE,
    ensures
        r == spec_omega(
            particles@,
            ii as int,
            neigh_particles@,
            dm as int,
            h as int,
            rho as int,
            sigma as int,
            d as int,
        ),
        SCALE - 0xC000000000 <= r <= SCALE + 0xC000000000,
{
    let n: usize = neigh_particles.len();
    let mut sumdw: i64 = 0;
    let mut k: usize = 0;
    while k < n
        invariant
            k <= n,
            sumdw == spec_dwdh_sum(
                particles@,
                ii as int,
                neigh_particles@,
                h as int,
                d as int,
                k as nat,
            ),
            iabs(sumdw as int) <= k * 12582912,
        decreases n - k,
    {
        let j: usize = neigh_particles[k];
        let r: i64 = euclidean_norm(&particles[ii], &particles[j]);
        proof {
            assert(iabs(r as int) * (SCALE as int) <= 0x30000000000 * (SCALE as int));
        }
        let q: i64 = div_fx(r, h);
        proof {
            lemma_mul_sign(r as int, SCALE as int);
            lemma_tdiv_sign((r as int) * (SCALE as int), h as int);
        }
        let w: i64 = dwdh(q, d);
        sumdw = sumdw + w;
        k = k + 1;
    }
    proof {
        lemma_fxmul_bound(sumdw as int, dm as int, 0xC00000000, 0x400000, 0x3000000000);
    }
    let t1: i64 = mul_fx(sumdw, dm);
    proof {
        lemma_fxmul_bound(t1 as int, sigma as int, 0x3000000000, 0x400000, 0xC000000000);
    }
    let t2: i64 = mul_fx(t1, sigma);
    proof {
        lemma_fxpow_low(h as int, d as nat);
    }
    let hp: i64 = pow_fx(h, d);
    let hr: i128 = mul_fx128(hp as i128, rho as i128);
    proof {
        lemma_fxmul_bound(
            hp as int,
            rho as int,
            0x4000000000,
            0x100000000000000,
            0x4000000000000000000,
        );
        lemma_mul_bound(d as int, hr as int, 3, 0x4000000000000000000);
    }
    let den: i128 = (d as i128) * hr;
    proof {
        assert(den == spec_omega_den(h as int, rho as int, d as int));
        lemma_fxdiv_bound(t2 as int, den as int, 0xC000000000, SCALE as int, 0xC000000000);
    }
    let corr: i128 = div_fx128(t2 as i128, den);
    SCALE - (corr as i64)
}

} // verus!
