use vstd::prelude::*;
use crate::density::{all_pos_bounded, neigh_ok, spec_omega, spec_omega_den, H_MAX, H_MIN};
use crate::eos::{spec_mon89, spec_mon89_nu};
use crate::fixed::{
    div_fx, div_fx128, div_trunc, fxdiv, fxmul, fxpow, iabs, lemma_fxmul_bound, lemma_mul_bound,
    mul_fx, mul_fx128, pow_fx, sqrt_floor, tdiv, FX_BOUND, SCALE,
};
use crate::kernel::{dfdq_cubic_kernel, spec_dw_cubic};
use crate::particle::{euclidean_norm, sq_dist, Particle};

verus! {

/// One side's pressure term of the symmetrized force:
/// `p / (omega rho^2)`.
pub open spec fn spec_acc_term(p: int, omeg: int, rho: int) -> int {
    fxdiv(p, fxmul(omeg, fxmul(rho, rho)))
}

/// The symmetrized scalar of the pairwise pressure-gradient force with
/// the viscosity folded in:
/// `p_a/(omega_a rho_a^2) grad_ha + p_b/(omega_b rho_b^2) grad_hb
///  + 0.5 art_visc (grad_ha + grad_hb)`.
pub open spec fn spec_accel_scalar(
    rho_a: int,
    rho_b: int,
    p_a: int,
    p_b: int,
    omeg_a: int,
    omeg_b: int,
    grad_ha: int,
    grad_hb: int,
    art_visc: int,
) -> int {
    fxmul(spec_acc_term(p_a, omeg_a, rho_a), grad_ha) + fxmul(
        spec_acc_term(p_b, omeg_b, rho_b),
        grad_hb,
    ) + tdiv(fxmul(art_visc, grad_ha + grad_hb), 2)
}

/// Acceleration of particle `a` due to particle `b`: the scalar above
/// times the separation vector, with reversed sign.
pub fn acceleration_ab(
    particle_a: &Particle,
    particle_b: &Particle,
    p_a: i64,
    p_b: i64,
    omeg_a: i64,
    omeg_b: i64,
    grad_ha: i64,
    grad_hb: i64,
    art_visc: i64,
) -> (r: Vec<i64>)
    requires
        0 <= p_a <= FX_BOUND,
        0 <= p_b <= FX_BOUND,
        0 < omeg_a <= 4 * SCALE,
        0 < omeg_b <= 4 * SCALE,
        1024 <= particle_a.rho <= 0x40000000,
        1024 <= particle_b.rho <= 0x40000000,
        iabs(grad_ha as int) <= FX_BOUND,
        iabs(grad_hb as int) <= FX_BOUND,
        iabs(art_visc as int) <= FX_BOUND,
        iabs(particle_a.x as int) <= FX_BOUND,
        iabs(particle_a.y as int) <= FX_BOUND,
        iabs(particle_b.x as int) <= FX_BOUND,
        iabs(particle_b.y as int) <= FX_BOUND,
        fxmul(omeg_a as int, fxmul(particle_a.rho as int, particle_a.rho as int)) >= 1,
        fxmul(omeg_b as int, fxmul(particle_b.rho as int, particle_b.rho as int)) >= 1,
        iabs(spec_acc_term(p_a as int, omeg_a as int, particle_a.rho as int)) <= FX_BOUND,
        iabs(spec_acc_term(p_b as int, omeg_b as int, particle_b.rho as int)) <= FX_BOUND,
        iabs(
            spec_accel_scalar(
                particle_a.rho as int,
                particle_b.rho as int,
                p_a as int,
                p_b as int,
                omeg_a as int,
                omeg_b as int,
                grad_ha as int,
                grad_hb as int,
                art_visc as int,
            ),
        ) <= FX_BOUND,
    ensures
        r@.len() == 2,
        ({
            let acc = spec_accel_scalar(
                particle_a.rho as int,
                particle_b.rho as int,
                p_a as int,
                p_b as int,
                omeg_a as int,
                omeg_b as int,
                grad_ha as int,
                grad_hb as int,
                art_visc as int,
            );
            r@[0] == fxmul(-acc, particle_a.x - particle_b.x) && r@[1] == fxmul(
                -acc,
                particle_a.y - particle_b.y,
            )
        }),
{
    proof {
        lemma_fxmul_bound(
            particle_a.rho as int,
            particle_a.rho as int,
            0x40000000,
            0x40000000,
            0x10000000000,
        );
        lemma_fxmul_bound(
            particle_b.rho as int,
            particle_b.rho as int,
            0x40000000,
            0x40000000,
            0x10000000000,
        );
    }
    let rho2_a: i64 = mul_fx(particle_a.rho, particle_a.rho);
    let rho2_b: i64 = mul_fx(particle_b.rho, particle_b.rho);
    proof {
        lemma_fxmul_bound(omeg_a as int, rho2_a as int, 0x400000, 0x10000000000, 0x40000000000);
        lemma_fxmul_bound(omeg_b as int, rho2_b as int, 0x400000, 0x10000000000, 0x40000000000);
    }
    let den_a: i64 = mul_fx(omeg_a, rho2_a);
    let den_b: i64 = mul_fx(omeg_b, rho2_b);
    let term_a: i64 = div_fx(p_a, den_a);
    let term_b: i64 = div_fx(p_b, den_b);
    proof {
        lemma_fxmul_bound(
            term_a as int,
            grad_ha as int,
            0x10000000000,
            0x10000000000,
            0x1000000000000000,
        );
        lemma_fxmul_bound(
            term_b as int,
            grad_hb as int,
            0x10000000000,
            0x10000000000,
            0x1000000000000000,
        );
        lemma_fxmul_bound(
            art_visc as int,
            (grad_ha + grad_hb) as int,
            0x10000000000,
            0x20000000000,
            0x2000000000000000,
        );
    }
    let ta: i64 = mul_fx(term_a, grad_ha);
    let tb: i64 = mul_fx(term_b, grad_hb);
    let tv: i64 = div_trunc(mul_fx(art_visc, grad_ha + grad_hb), 2);
    let acc: i64 = ta + tb + tv;
    proof {
        lemma_fxmul_bound(
            -(acc as int),
            particle_a.x - particle_b.x,
            0x10000000000,
            0x20000000000,
            0x2000000000000000,
        );
        lemma_fxmul_bound(
            -(acc as int),
            particle_a.y - particle_b.y,
            0x10000000000,
            0x20000000000,
            0x2000000000000000,
        );
    }
    let fx: i64 = mul_fx(-acc, particle_a.x - particle_b.x);
    let fy: i64 = mul_fx(-acc, particle_a.y - particle_b.y);
    let mut r: Vec<i64> = Vec::new();
    r.push(fx);
    r.push(fy);
    r
}

/// Separation of a pair, rounded down.
pub open spec fn spec_pair_r(ps: Seq<Particle>, i: int, j: int) -> int {
    sqrt_floor(sq_dist(ps[i], ps[j]))
}

/// Grad-h-weighted kernel gradient seen from side `s` of the pair:
/// `dW/dq(r/h_s) sigma / (r h_s^(d+1))`.
pub open spec fn spec_grad_side(ps: Seq<Particle>, i: int, j: int, s: int, sigma: int, d: int) -> int {
    let r = spec_pair_r(ps, i, j);
    fxdiv(
        fxmul(spec_dw_cubic(fxdiv(r, ps[s].h as int)), sigma),
        fxmul(r, fxmul(fxpow(ps[s].h as int, d as nat), ps[s].h as int)),
    )
}

/// Pairwise divergence dot product `(v_i - v_j) . (x_i - x_j)`.
pub open spec fn spec_drv(ps: Seq<Particle>, i: int, j: int) -> int {
    fxmul(ps[i].vx - ps[j].vx, ps[i].x - ps[j].x) + fxmul(ps[i].vy - ps[j].vy, ps[i].y - ps[j].y)
}

/// Artificial viscosity of the pair: the standard form when the two
/// approach each other, zero otherwise.
pub open spec fn spec_visc(ps: Seq<Particle>, cs: Seq<i64>, i: int, j: int) -> int {
    if spec_drv(ps, i, j) < 0 {
        spec_mon89(
            spec_pair_r(ps, i, j),
            spec_drv(ps, i, j),
            cs[i] as int,
            cs[j] as int,
            ps[i].h as int,
            ps[j].h as int,
            ps[i].rho as int,
            ps[j].rho as int,
        )
    } else {
        0
    }
}

/// The grad-h correction each particle carries into the force pass,
/// evaluated over its own neighbor snapshot at its current density.
pub open spec fn omega_of(
    ps: Seq<Particle>,
    neighbors: Seq<Vec<usize>>,
    i: int,
    dm: int,
    sigma: int,
    d: int,
) -> int {
    spec_omega(ps, i, neighbors[i]@, dm, ps[i].h as int, ps[i].rho as int, sigma, d)
}

/// The symmetrized force scalar of the pair `(i, j)`.
pub open spec fn spec_pair_scalar(
    ps: Seq<Particle>,
    neighbors: Seq<Vec<usize>>,
    press: Seq<i64>,
    cs: Seq<i64>,
    i: int,
    j: int,
    dm: int,
    sigma: int,
    d: int,
) -> int {
    spec_accel_scalar(
        ps[i].rho as int,
        ps[j].rho as int,
        press[i] as int,
        press[j] as int,
        omega_of(ps, neighbors, i, dm, sigma, d),
        omega_of(ps, neighbors, j, dm, sigma, d),
        spec_grad_side(ps, i, j, i, sigma, d),
        spec_grad_side(ps, i, j, j, sigma, d),
        spec_visc(ps, cs, i, j),
    )
}

/// Divergence contribution of the pair, added to both sides.
pub open spec fn spec_pair_div(ps: Seq<Particle>, i: int, j: int, sigma: int, d: int) -> int {
    fxmul(spec_grad_side(ps, i, j, i, sigma, d), spec_drv(ps, i, j))
}

/// A pair interaction stays representable: the particles are separated,
/// the kernel-gradient denominators are alive, and every intermediate of
/// the pair's force, viscosity, divergence and thermal terms fits.
pub open spec fn pair_ok(
    ps: Seq<Particle>,
    neighbors: Seq<Vec<usize>>,
    press: Seq<i64>,
    cs: Seq<i64>,
    i: int,
    j: int,
    dm: int,
    sigma: int,
    d: int,
) -> bool {
    let r = spec_pair_r(ps, i, j);
    let drv = spec_drv(ps, i, j);
    let nu = spec_mon89_nu(r, drv, ps[i].h as int, ps[j].h as int);
    let visc = spec_visc(ps, cs, i, j);
    let cdiv = spec_pair_div(ps, i, j, sigma, d);
    let scal = spec_pair_scalar(ps, neighbors, press, cs, i, j, dm, sigma, d);
    let term_i = spec_acc_term(
        press[i] as int,
        omega_of(ps, neighbors, i, dm, sigma, d),
        ps[i].rho as int,
    );
    let term_j = spec_acc_term(
        press[j] as int,
        omega_of(ps, neighbors, j, dm, sigma, d),
        ps[j].rho as int,
    );
    &&& sq_dist(ps[i], ps[j]) >= 0x100000
    &&& r <= FX_BOUND
    &&& iabs(drv) <= 0x400000000
    &&& fxmul(r, fxmul(fxpow(ps[i].h as int, d as nat), ps[i].h as int)) >= 1
    &&& fxmul(r, fxmul(fxpow(ps[j].h as int, d as nat), ps[j].h as int)) >= 1
    &&& iabs(spec_grad_side(ps, i, j, i, sigma, d)) <= FX_BOUND
    &&& iabs(spec_grad_side(ps, i, j, j, sigma, d)) <= FX_BOUND
    &&& (drv < 0 ==> iabs(nu) <= FX_BOUND)
    &&& (drv < 0 ==> iabs(fxmul(2 * nu - (cs[i] + cs[j]) / 2, nu)) <= FX_BOUND)
    &&& iabs(visc) <= FX_BOUND
    &&& iabs(scal) <= FX_BOUND
    &&& iabs(fxmul(-scal, ps[i].x - ps[j].x)) <= FX_BOUND
    &&& iabs(fxmul(-scal, ps[i].y - ps[j].y)) <= FX_BOUND
    &&& iabs(cdiv) <= 0x20000000000
    &&& iabs(fxmul(term_i + visc, cdiv)) <= FX_BOUND
    &&& iabs(fxmul(term_j + visc, cdiv)) <= FX_BOUND
}

/// A prefix of zeroes sums to zero.
pub proof fn lemma_sum_zero(s: Seq<i64>, k: int)
    requires
        k <= s.len(),
        forall|m: int| 0 <= m < s.len() ==> (#[trigger] s[m]) == 0i64,
    ensures
        sum_i64(s, k) == 0,
    decreases k,
{
    if k > 0 {
        lemma_sum_zero(s, k - 1);
    }
}

/// Sum of the first `k` entries.
pub open spec fn sum_i64(s: Seq<i64>, k: int) -> int
    decreases k,
{
    if k <= 0 {
        0
    } else {
        sum_i64(s, k - 1) + s[k - 1]
    }
}

/// Changing one entry moves the sum by the difference; entries past the
/// summed prefix leave it alone.
pub proof fn lemma_sum_update(s: Seq<i64>, t: Seq<i64>, idx: int, k: int)
    requires
        s.len() == t.len(),
        0 <= idx < s.len(),
        k <= s.len(),
        forall|m: int| 0 <= m < s.len() && m != idx ==> s[m] == t[m],
    ensures
        idx < k ==> sum_i64(t, k) == sum_i64(s, k) + t[idx] - s[idx],
        idx >= k ==> sum_i64(t, k) == sum_i64(s, k),
    decreases k,
{
    if k > 0 {
        lemma_sum_update(s, t, idx, k - 1);
    }
}

/// Sum of the `ax` accumulators over the first `k` particles.
pub open spec fn spec_sum_ax(ps: Seq<Particle>, k: int) -> int
    decreases k,
{
    if k <= 0 {
        0
    } else {
        spec_sum_ax(ps, k - 1) + ps[k - 1].ax
    }
}

/// Sum of the `ay` accumulators over the first `k` particles.
pub open spec fn spec_sum_ay(ps: Seq<Particle>, k: int) -> int
    decreases k,
{
    if k <= 0 {
        0
    } else {
        spec_sum_ay(ps, k - 1) + ps[k - 1].ay
    }
}

/// Particle accelerations agree with a plain column of values.
pub proof fn lemma_sum_columns(ps: Seq<Particle>, ax: Seq<i64>, ay: Seq<i64>, k: int)
    requires
        ax.len() == ps.len(),
        ay.len() == ps.len(),
        k <= ps.len(),
        forall|m: int| 0 <= m < ps.len() ==> (#[trigger] ps[m]).ax == ax[m] && ps[m].ay == ay[m],
    ensures
        spec_sum_ax(ps, k) == sum_i64(ax, k),
        spec_sum_ay(ps, k) == sum_i64(ay, k),
    decreases k,
{
    if k > 0 {
        lemma_sum_columns(ps, ax, ay, k - 1);
    }
}

/// Upper bound on how many pair contributions entry `k` has received
/// while the pass stands at outer index `i`, inner index `j`.
pub open spec fn pair_touches(n: int, i: int, j: int, k: int) -> int {
    if k < i {
        n - 1
    } else if k == i {
        j - 1
    } else if k < j {
        i + 1
    } else {
        i
    }
}

/// The five contributions of the ordered pair `(i, j)`: acceleration
/// components applied `+` to `i` and `-` to `j`, the shared divergence
/// increment, and the two thermal-rate increments.
pub open spec fn c_ax(
    ps: Seq<Particle>,
    nss: Seq<Vec<usize>>,
    press: Seq<i64>,
    cs: Seq<i64>,
    i: int,
    j: int,
    dm: int,
    sigma: int,
    d: int,
) -> int {
    fxmul(dm, fxmul(-spec_pair_scalar(ps, nss, press, cs, i, j, dm, sigma, d), ps[i].x - ps[j].x))
}

/// Second component of the pair's acceleration contribution.
pub open spec fn c_ay(
    ps: Seq<Particle>,
    nss: Seq<Vec<usize>>,
    press: Seq<i64>,
    cs: Seq<i64>,
    i: int,
    j: int,
    dm: int,
    sigma: int,
    d: int,
) -> int {
    fxmul(dm, fxmul(-spec_pair_scalar(ps, nss, press, cs, i, j, dm, sigma, d), ps[i].y - ps[j].y))
}

/// Thermal-rate contribution the pair hands to side `s`.
pub open spec fn c_du(
    ps: Seq<Particle>,
    nss: Seq<Vec<usize>>,
    press: Seq<i64>,
    cs: Seq<i64>,
    i: int,
    j: int,
    s: int,
    dm: int,
    sigma: int,
    d: int,
) -> int {
    let term = spec_acc_term(press[s] as int, omega_of(ps, nss, s, dm, sigma, d), ps[s].rho as int);
    fxmul(dm, fxmul(term + spec_visc(ps, cs, i, j), spec_pair_div(ps, i, j, sigma, d)))
}

/// Sum of a row of pair contributions `c(k, b)` for `b` in `[lo, hi)`,
/// as one accumulator component selected by `which`: zero for `ax`, one
/// for `ay`, two for `divv`, three for `du`.
pub open spec fn row_range(
    ps: Seq<Particle>,
    nss: Seq<Vec<usize>>,
    press: Seq<i64>,
    cs: Seq<i64>,
    which: int,
    k: int,
    lo: int,
    hi: int,
    dm: int,
    sigma: int,
    d: int,
) -> int
    decreases hi - lo,
{
    if lo >= hi {
        0
    } else {
        contrib_to_lower(ps, nss, press, cs, which, k, lo, dm, sigma, d) + row_range(
            ps,
            nss,
            press,
            cs,
            which,
            k,
            lo + 1,
            hi,
            dm,
            sigma,
            d,
        )
    }
}

/// What the ordered pair `(k, b)` adds to its lower index `k`.
pub open spec fn contrib_to_lower(
    ps: Seq<Particle>,
    nss: Seq<Vec<usize>>,
    press: Seq<i64>,
    cs: Seq<i64>,
    which: int,
    k: int,
    b: int,
    dm: int,
    sigma: int,
    d: int,
) -> int {
    if which == 0 {
        c_ax(ps, nss, press, cs, k, b, dm, sigma, d)
    } else if which == 1 {
        c_ay(ps, nss, press, cs, k, b, dm, sigma, d)
    } else if which == 2 {
        spec_pair_div(ps, k, b, sigma, d)
    } else {
        c_du(ps, nss, press, cs, k, b, k, dm, sigma, d)
    }
}

/// What the ordered pair `(a, k)` adds to its higher index `k`.
pub open spec fn contrib_to_higher(
    ps: Seq<Particle>,
    nss: Seq<Vec<usize>>,
    press: Seq<i64>,
    cs: Seq<i64>,
    which: int,
    a: int,
    k: int,
    dm: int,
    sigma: int,
    d: int,
) -> int {
    if which == 0 {
        -c_ax(ps, nss, press, cs, a, k, dm, sigma, d)
    } else if which == 1 {
        -c_ay(ps, nss, press, cs, a, k, dm, sigma, d)
    } else if which == 2 {
        spec_pair_div(ps, a, k, sigma, d)
    } else {
        c_du(ps, nss, press, cs, a, k, k, dm, sigma, d)
    }
}

/// Sum of a column of pair contributions `c(a, k)` for `a` in `[lo, hi)`.
pub open spec fn col_range(
    ps: Seq<Particle>,
    nss: Seq<Vec<usize>>,
    press: Seq<i64>,
    cs: Seq<i64>,
    which: int,
    k: int,
    lo: int,
    hi: int,
    dm: int,
    sigma: int,
    d: int,
) -> int
    decreases hi - lo,
{
    if lo >= hi {
        0
    } else {
        contrib_to_higher(ps, nss, press, cs, which, lo, k, dm, sigma, d) + col_range(
            ps,
            nss,
            press,
            cs,
            which,
            k,
            lo + 1,
            hi,
            dm,
            sigma,
            d,
        )
    }
}

/// A row extends on the right by its next pair.
pub proof fn lemma_row_snoc(
    ps: Seq<Particle>,
    nss: Seq<Vec<usize>>,
    press: Seq<i64>,
    cs: Seq<i64>,
    which: int,
    k: int,
    lo: int,
    hi: int,
    dm: int,
    sigma: int,
    d: int,
)
    requires
        lo <= hi,
    ensures
        row_range(ps, nss, press, cs, which, k, lo, hi + 1, dm, sigma, d) == row_range(
            ps,
            nss,
            press,
            cs,
            which,
            k,
            lo,
            hi,
            dm,
            sigma,
            d,
        ) + contrib_to_lower(ps, nss, press, cs, which, k, hi, dm, sigma, d),
    decreases hi - lo,
{
    if lo < hi {
        lemma_row_snoc(ps, nss, press, cs, which, k, lo + 1, hi, dm, sigma, d);
    } else {
        assert(row_range(ps, nss, press, cs, which, k, lo + 1, hi + 1, dm, sigma, d) == 0);
    }
}

/// A column extends on the right by its next pair.
pub proof fn lemma_col_snoc(
    ps: Seq<Particle>,
    nss: Seq<Vec<usize>>,
    press: Seq<i64>,
    cs: Seq<i64>,
    which: int,
    k: int,
    lo: int,
    hi: int,
    dm: int,
    sigma: int,
    d: int,
)
    requires
        lo <= hi,
    ensures
        col_range(ps, nss, press, cs, which, k, lo, hi + 1, dm, sigma, d) == col_range(
            ps,
            nss,
            press,
            cs,
            which,
            k,
            lo,
            hi,
            dm,
            sigma,
            d,
        ) + contrib_to_higher(ps, nss, press, cs, which, hi, k, dm, sigma, d),
    decreases hi - lo,
{
    if lo < hi {
        lemma_col_snoc(ps, nss, press, cs, which, k, lo + 1, hi, dm, sigma, d);
    } else {
        assert(col_range(ps, nss, press, cs, which, k, lo + 1, hi + 1, dm, sigma, d) == 0);
    }
}

/// Every column above row `i` extends by that row's contribution.
pub proof fn lemma_col_extends_all(
    ps: Seq<Particle>,
    nss: Seq<Vec<usize>>,
    press: Seq<i64>,
    cs: Seq<i64>,
    i: int,
    n: int,
    dm: int,
    sigma: int,
    d: int,
)
    requires
        0 <= i,
    ensures
        forall|k: int, which: int|
            i < k < n && 0 <= which < 4 ==> #[trigger] col_range(
                ps,
                nss,
                press,
                cs,
                which,
                k,
                0,
                i + 1,
                dm,
                sigma,
                d,
            ) == col_range(ps, nss, press, cs, which, k, 0, i, dm, sigma, d) + contrib_to_higher(
                ps,
                nss,
                press,
                cs,
                which,
                i,
                k,
                dm,
                sigma,
                d,
            ),
{
    assert forall|k: int, which: int|
        i < k < n && 0 <= which < 4 implies #[trigger] col_range(
        ps,
        nss,
        press,
        cs,
        which,
        k,
        0,
        i + 1,
        dm,
        sigma,
        d,
    ) == col_range(ps, nss, press, cs, which, k, 0, i, dm, sigma, d) + contrib_to_higher(
        ps,
        nss,
        press,
        cs,
        which,
        i,
        k,
        dm,
        sigma,
        d,
    ) by {
        lemma_col_snoc(ps, nss, press, cs, which, k, 0, i, dm, sigma, d);
    }
}

/// The accumulator a full pass owes to particle `k`: every pair it sits
/// in contributes exactly once.
pub open spec fn acc_total(
    ps: Seq<Particle>,
    nss: Seq<Vec<usize>>,
    press: Seq<i64>,
    cs: Seq<i64>,
    which: int,
    k: int,
    dm: int,
    sigma: int,
    d: int,
) -> int {
    col_range(ps, nss, press, cs, which, k, 0, k, dm, sigma, d) + row_range(
        ps,
        nss,
        press,
        cs,
        which,
        k,
        k + 1,
        ps.len() as int,
        dm,
        sigma,
        d,
    )
}

/// The accumulator of particle `k` while the pass stands at outer index
/// `i`, inner index `j`.
pub open spec fn acc_state(
    ps: Seq<Particle>,
    nss: Seq<Vec<usize>>,
    press: Seq<i64>,
    cs: Seq<i64>,
    which: int,
    k: int,
    i: int,
    j: int,
    dm: int,
    sigma: int,
    d: int,
) -> int {
    if k < i {
        acc_total(ps, nss, press, cs, which, k, dm, sigma, d)
    } else if k == i {
        col_range(ps, nss, press, cs, which, k, 0, k, dm, sigma, d) + row_range(
            ps,
            nss,
            press,
            cs,
            which,
            k,
            k + 1,
            j,
            dm,
            sigma,
            d,
        )
    } else {
        col_range(ps, nss, press, cs, which, k, 0, i, dm, sigma, d) + if k < j {
            contrib_to_higher(ps, nss, press, cs, which, i, k, dm, sigma, d)
        } else {
            0
        }
    }
}

/// The five contributions of one pair, each equal to its specification
/// and small enough to accumulate four thousand times over.
#[verifier::rlimit(100)]
fn pair_terms(
    particles: &Vec<Particle>,
    press: &Vec<i64>,
    cs: &Vec<i64>,
    neighbors: &Vec<Vec<usize>>,
    omegas: &Vec<i64>,
    i: usize,
    j: usize,
    dm: i64,
    sigma: i64,
    d: u32,
) -> (t: (i64, i64, i64, i64, i64))
    requires
        i < j < particles@.len(),
        particles@.len() <= 4096,
        press@.len() == particles@.len(),
        cs@.len() == particles@.len(),
        neighbors@.len() == particles@.len(),
        omegas@.len() == particles@.len(),
        all_pos_bounded(particles@),
        0 <= dm <= 0x400000,
        0 <= sigma <= 0x400000,
        1 <= d <= 3,
        forall|k: int|
            0 <= k < particles@.len() ==> {
                let p = #[trigger] particles@[k];
                H_MIN <= p.h <= H_MAX && 1024 <= p.rho <= 0x40000000 && iabs(p.vx as int)
                    <= FX_BOUND && iabs(p.vy as int) <= FX_BOUND
            },
        forall|k: int| 0 <= k < press@.len() ==> 0 <= #[trigger] press@[k] <= FX_BOUND,
        forall|k: int| 0 <= k < cs@.len() ==> 0 <= #[trigger] cs@[k] <= FX_BOUND,
        forall|k: int|
            0 <= k < particles@.len() ==> #[trigger] omegas@[k] == omega_of(
                particles@,
                neighbors@,
                k,
                dm as int,
                sigma as int,
                d as int,
            ),
        forall|k: int|
            0 <= k < particles@.len() ==> {
                let w = #[trigger] omega_of(particles@, neighbors@, k, dm as int, sigma as int, d as int);
                0 < w <= 4 * SCALE && fxmul(
                    w,
                    fxmul(particles@[k].rho as int, particles@[k].rho as int),
                ) >= 1 && iabs(spec_acc_term(press@[k] as int, w, particles@[k].rho as int))
                    <= FX_BOUND
            },
        pair_ok(
            particles@,
            neighbors@,
            press@,
            cs@,
            i as int,
            j as int,
            dm as int,
            sigma as int,
            d as int,
        ),
    ensures
        t.0 == c_ax(particles@, neighbors@, press@, cs@, i as int, j as int, dm as int, sigma as int, d as int),
        t.1 == c_ay(particles@, neighbors@, press@, cs@, i as int, j as int, dm as int, sigma as int, d as int),
        t.2 == spec_pair_div(particles@, i as int, j as int, sigma as int, d as int),
        t.3 == c_du(particles@, neighbors@, press@, cs@, i as int, j as int, i as int, dm as int, sigma as int, d as int),
        t.4 == c_du(particles@, neighbors@, press@, cs@, i as int, j as int, j as int, dm as int, sigma as int, d as int),
        iabs(t.0 as int) <= 0x40000000000,
        iabs(t.1 as int) <= 0x40000000000,
        iabs(t.2 as int) <= 0x40000000000,
        iabs(t.3 as int) <= 0x40000000000,
        iabs(t.4 as int) <= 0x40000000000,
{
    let pi = particles[i];
    let pj = particles[j];
    assert(pair_ok(
        particles@,
        neighbors@,
        press@,
        cs@,
        i as int,
        j as int,
        dm as int,
        sigma as int,
        d as int,
    ));
    let r: i64 = euclidean_norm(&pi, &pj);
    proof {
        if r < 1024 {
            crate::fixed::lemma_square_ordered((r as int) + 1, 1024);
        }
    }
    let grad_i: i64 = grad_side(&pi, r, sigma, d);
    let grad_j: i64 = grad_side(&pj, r, sigma, d);
    proof {
        lemma_fxmul_bound(
            (pi.vx - pj.vx) as int,
            (pi.x - pj.x) as int,
            0x20000000000,
            0x20000000000,
            0x4000000000000000,
        );
        lemma_fxmul_bound(
            (pi.vy - pj.vy) as int,
            (pi.y - pj.y) as int,
            0x20000000000,
            0x20000000000,
            0x4000000000000000,
        );
    }
    let drv_wide: i128 = mul_fx128((pi.vx - pj.vx) as i128, (pi.x - pj.x) as i128)
        + mul_fx128((pi.vy - pj.vy) as i128, (pi.y - pj.y) as i128);
    let drv: i64 = drv_wide as i64;
    let visc: i64 = if drv < 0 {
        crate::eos::mon89_art_vis(r, drv, cs[i], cs[j], pi.h, pj.h, pi.rho, pj.rho)
    } else {
        0
    };
    let f_pair: Vec<i64> = acceleration_ab(
        &pi,
        &pj,
        press[i],
        press[j],
        omegas[i],
        omegas[j],
        grad_i,
        grad_j,
        visc,
    );
    proof {
        lemma_fxmul_bound(
            dm as int,
            f_pair@[0] as int,
            0x400000,
            0x10000000000,
            0x40000000000,
        );
        lemma_fxmul_bound(
            dm as int,
            f_pair@[1] as int,
            0x400000,
            0x10000000000,
            0x40000000000,
        );
    }
    let cax: i64 = mul_fx(dm, f_pair[0]);
    let cay: i64 = mul_fx(dm, f_pair[1]);
    let cdiv: i64 = mul_fx(grad_i, drv);
    let rho2_i: i64 = mul_fx(pi.rho, pi.rho);
    let rho2_j: i64 = mul_fx(pj.rho, pj.rho);
    proof {
        lemma_fxmul_bound(pi.rho as int, pi.rho as int, 0x40000000, 0x40000000, 0x10000000000);
        lemma_fxmul_bound(pj.rho as int, pj.rho as int, 0x40000000, 0x40000000, 0x10000000000);
        lemma_fxmul_bound(omegas@[i as int] as int, rho2_i as int, 0x400000, 0x10000000000, 0x40000000000);
        lemma_fxmul_bound(omegas@[j as int] as int, rho2_j as int, 0x400000, 0x10000000000, 0x40000000000);
    }
    let term_i: i64 = div_fx(press[i], mul_fx(omegas[i], rho2_i));
    let term_j: i64 = div_fx(press[j], mul_fx(omegas[j], rho2_j));
    proof {
        lemma_fxmul_bound(
            dm as int,
            fxmul((term_i + visc) as int, cdiv as int),
            0x400000,
            0x10000000000,
            0x40000000000,
        );
        lemma_fxmul_bound(
            dm as int,
            fxmul((term_j + visc) as int, cdiv as int),
            0x400000,
            0x10000000000,
            0x40000000000,
        );
        lemma_mul_bound((term_i + visc) as int, cdiv as int, 0x20000000000, 0x20000000000);
        lemma_mul_bound((term_j + visc) as int, cdiv as int, 0x20000000000, 0x20000000000);
    }
    let cdu_i: i64 = mul_fx(dm, mul_fx(term_i + visc, cdiv));
    let cdu_j: i64 = mul_fx(dm, mul_fx(term_j + visc, cdiv));
    proof {
        let gi = i as int;
        let gj = j as int;
        assert(cax as int == c_ax(particles@, neighbors@, press@, cs@, gi, gj, dm as int, sigma as int, d as int));
        assert(cay as int == c_ay(particles@, neighbors@, press@, cs@, gi, gj, dm as int, sigma as int, d as int));
        assert(cdiv as int == spec_pair_div(particles@, gi, gj, sigma as int, d as int));
        assert(cdu_i as int == c_du(particles@, neighbors@, press@, cs@, gi, gj, gi, dm as int, sigma as int, d as int));
        assert(cdu_j as int == c_du(particles@, neighbors@, press@, cs@, gi, gj, gj, dm as int, sigma as int, d as int));
        lemma_row_snoc(particles@, neighbors@, press@, cs@, 0, gi, gi + 1, gj, dm as int, sigma as int, d as int);
        lemma_row_snoc(particles@, neighbors@, press@, cs@, 1, gi, gi + 1, gj, dm as int, sigma as int, d as int);
        lemma_row_snoc(particles@, neighbors@, press@, cs@, 2, gi, gi + 1, gj, dm as int, sigma as int, d as int);
        lemma_row_snoc(particles@, neighbors@, press@, cs@, 3, gi, gi + 1, gj, dm as int, sigma as int, d as int);
    }
    (cax, cay, cdiv, cdu_i, cdu_j)
}

/// One row of the pair sweep: partner every index beyond `i` with `i`,
/// applying each pair's contributions to both sides' accumulators.
#[verifier::loop_isolation(false)]
#[verifier::rlimit(100)]
fn sweep_row(
    particles: &Vec<Particle>,
    press: &Vec<i64>,
    cs: &Vec<i64>,
    neighbors: &Vec<Vec<usize>>,
    omegas: &Vec<i64>,
    axv: &mut Vec<i64>,
    ayv: &mut Vec<i64>,
    dvv: &mut Vec<i64>,
    duv: &mut Vec<i64>,
    i: usize,
    dm: i64,
    sigma: i64,
    d: u32,
)
    requires
        i < particles@.len(),
        particles@.len() <= 4096,
        press@.len() == particles@.len(),
        cs@.len() == particles@.len(),
        neighbors@.len() == particles@.len(),
        omegas@.len() == particles@.len(),
        all_pos_bounded(particles@),
        0 <= dm <= 0x400000,
        0 <= sigma <= 0x400000,
        1 <= d <= 3,
        forall|k: int|
            0 <= k < particles@.len() ==> {
                let p = #[trigger] particles@[k];
                H_MIN <= p.h <= H_MAX && 1024 <= p.rho <= 0x40000000 && iabs(p.vx as int)
                    <= FX_BOUND && iabs(p.vy as int) <= FX_BOUND
            },
        forall|k: int| 0 <= k < press@.len() ==> 0 <= #[trigger] press@[k] <= FX_BOUND,
        forall|k: int| 0 <= k < cs@.len() ==> 0 <= #[trigger] cs@[k] <= FX_BOUND,
        forall|k: int|
            0 <= k < particles@.len() ==> #[trigger] omegas@[k] == omega_of(
                particles@,
                neighbors@,
                k,
                dm as int,
                sigma as int,
                d as int,
            ),
        forall|k: int|
            0 <= k < particles@.len() ==> {
                let w = #[trigger] omega_of(particles@, neighbors@, k, dm as int, sigma as int, d as int);
                0 < w <= 4 * SCALE && fxmul(
                    w,
                    fxmul(particles@[k].rho as int, particles@[k].rho as int),
                ) >= 1 && iabs(spec_acc_term(press@[k] as int, w, particles@[k].rho as int))
                    <= FX_BOUND
            },
        forall|a: int, b: int|
            0 <= a < b < particles@.len() ==> pair_ok(
                particles@,
                neighbors@,
                press@,
                cs@,
                a,
                b,
                dm as int,
                sigma as int,
                d as int,
            ),
        old(axv)@.len() == particles@.len(),
        forall|k: int|
            0 <= k < particles@.len() ==> iabs((#[trigger] old(axv)@[k]) as int) <= pair_touches(
                particles@.len() as int,
                i as int,
                i as int + 1,
                k,
            ) * 0x40000000000,
        forall|k: int|
            0 <= k < particles@.len() ==> (#[trigger] old(axv)@[k]) as int == acc_state(
                particles@,
                neighbors@,
                press@,
                cs@,
                0,
                k,
                i as int,
                i as int + 1,
                dm as int,
                sigma as int,
                d as int,
            ),
        old(ayv)@.len() == particles@.len(),
        forall|k: int|
            0 <= k < particles@.len() ==> iabs((#[trigger] old(ayv)@[k]) as int) <= pair_touches(
                particles@.len() as int,
                i as int,
                i as int + 1,
                k,
            ) * 0x40000000000,
        forall|k: int|
            0 <= k < particles@.len() ==> (#[trigger] old(ayv)@[k]) as int == acc_state(
                particles@,
                neighbors@,
                press@,
                cs@,
                1,
                k,
                i as int,
                i as int + 1,
                dm as int,
                sigma as int,
                d as int,
            ),
        old(dvv)@.len() == particles@.len(),
        forall|k: int|
            0 <= k < particles@.len() ==> iabs((#[trigger] old(dvv)@[k]) as int) <= pair_touches(
                particles@.len() as int,
                i as int,
                i as int + 1,
                k,
            ) * 0x40000000000,
        forall|k: int|
            0 <= k < particles@.len() ==> (#[trigger] old(dvv)@[k]) as int == acc_state(
                particles@,
                neighbors@,
                press@,
                cs@,
                2,
                k,
                i as int,
                i as int + 1,
                dm as int,
                sigma as int,
                d as int,
            ),
        old(duv)@.len() == particles@.len(),
        forall|k: int|
            0 <= k < particles@.len() ==> iabs((#[trigger] old(duv)@[k]) as int) <= pair_touches(
                particles@.len() as int,
                i as int,
                i as int + 1,
                k,
            ) * 0x40000000000,
        forall|k: int|
            0 <= k < particles@.len() ==> (#[trigger] old(duv)@[k]) as int == acc_state(
                particles@,
                neighbors@,
                press@,
                cs@,
                3,
                k,
                i as int,
                i as int + 1,
                dm as int,
                sigma as int,
                d as int,
            ),
        sum_i64(old(axv)@, particles@.len() as int) == 0,
        sum_i64(old(ayv)@, particles@.len() as int) == 0,
    ensures
        final(axv)@.len() == particles@.len(),
        forall|k: int|
            0 <= k < particles@.len() ==> iabs((#[trigger] final(axv)@[k]) as int) <= pair_touches(
                particles@.len() as int,
                i as int + 1,
                i as int + 2,
                k,
            ) * 0x40000000000,
        forall|k: int|
            0 <= k < particles@.len() ==> (#[trigger] final(axv)@[k]) as int == acc_state(
                particles@,
                neighbors@,
                press@,
                cs@,
                0,
                k,
                i as int + 1,
                i as int + 2,
                dm as int,
                sigma as int,
                d as int,
            ),
        final(ayv)@.len() == particles@.len(),
        forall|k: int|
            0 <= k < particles@.len() ==> iabs((#[trigger] final(ayv)@[k]) as int) <= pair_touches(
                particles@.len() as int,
                i as int + 1,
                i as int + 2,
                k,
            ) * 0x40000000000,
        forall|k: int|
            0 <= k < particles@.len() ==> (#[trigger] final(ayv)@[k]) as int == acc_state(
                particles@,
                neighbors@,
                press@,
                cs@,
                1,
                k,
                i as int + 1,
                i as int + 2,
                dm as int,
                sigma as int,
                d as int,
            ),
        final(dvv)@.len() == particles@.len(),
        forall|k: int|
            0 <= k < particles@.len() ==> iabs((#[trigger] final(dvv)@[k]) as int) <= pair_touches(
                particles@.len() as int,
                i as int + 1,
                i as int + 2,
                k,
            ) * 0x40000000000,
        forall|k: int|
            0 <= k < particles@.len() ==> (#[trigger] final(dvv)@[k]) as int == acc_state(
                particles@,
                neighbors@,
                press@,
                cs@,
                2,
                k,
                i as int + 1,
                i as int + 2,
                dm as int,
                sigma as int,
                d as int,
            ),
        final(duv)@.len() == particles@.len(),
        forall|k: int|
            0 <= k < particles@.len() ==> iabs((#[trigger] final(duv)@[k]) as int) <= pair_touches(
                particles@.len() as int,
                i as int + 1,
                i as int + 2,
                k,
            ) * 0x40000000000,
        forall|k: int|
            0 <= k < particles@.len() ==> (#[trigger] final(duv)@[k]) as int == acc_state(
                particles@,
                neighbors@,
                press@,
                cs@,
                3,
                k,
                i as int + 1,
                i as int + 2,
                dm as int,
                sigma as int,
                d as int,
            ),
        sum_i64(final(axv)@, particles@.len() as int) == 0,
        sum_i64(final(ayv)@, particles@.len() as int) == 0,
{
    let n: usize = particles.len();
    let mut j: usize = i + 1;
    while j < n
        invariant
        i < j <= n || (i + 1 == j && j <= n),
        i < n,
        j >= i + 1,
        particles@ == particles@,
        omegas@.len() == n as int,
        forall|k: int|
            0 <= k < n as int ==> #[trigger] omegas@[k] == omega_of(
            particles@,
            neighbors@,
            k,
            dm as int,
            sigma as int,
            d as int,
            ),
        axv@.len() == n as int && ayv@.len() == n as int && dvv@.len() == n as int
            && duv@.len() == n as int,
        sum_i64(axv@, n as int) == 0,
        sum_i64(ayv@, n as int) == 0,
        forall|k: int|
            0 <= k < n as int ==> iabs(#[trigger] axv@[k] as int) <= pair_touches(
            n as int,
            i as int,
            j as int,
            k,
            ) * 0x40000000000,
        forall|k: int|
            0 <= k < n as int ==> iabs(#[trigger] ayv@[k] as int) <= pair_touches(
            n as int,
            i as int,
            j as int,
            k,
            ) * 0x40000000000,
        forall|k: int|
            0 <= k < n as int ==> iabs(#[trigger] dvv@[k] as int) <= pair_touches(
            n as int,
            i as int,
            j as int,
            k,
            ) * 0x40000000000,
        forall|k: int|
            0 <= k < n as int ==> iabs(#[trigger] duv@[k] as int) <= pair_touches(
            n as int,
            i as int,
            j as int,
            k,
            ) * 0x40000000000,
        forall|k: int|
            0 <= k < n as int ==> (#[trigger] axv@[k]) as int == acc_state(
            particles@,
            neighbors@,
            press@,
            cs@,
            0,
            k,
            i as int,
            j as int,
            dm as int,
            sigma as int,
            d as int,
            ),
        forall|k: int|
            0 <= k < n as int ==> (#[trigger] ayv@[k]) as int == acc_state(
            particles@,
            neighbors@,
            press@,
            cs@,
            1,
            k,
            i as int,
            j as int,
            dm as int,
            sigma as int,
            d as int,
            ),
        forall|k: int|
            0 <= k < n as int ==> (#[trigger] dvv@[k]) as int == acc_state(
            particles@,
            neighbors@,
            press@,
            cs@,
            2,
            k,
            i as int,
            j as int,
            dm as int,
            sigma as int,
            d as int,
            ),
        forall|k: int|
            0 <= k < n as int ==> (#[trigger] duv@[k]) as int == acc_state(
            particles@,
            neighbors@,
            press@,
            cs@,
            3,
            k,
            i as int,
            j as int,
            dm as int,
            sigma as int,
            d as int,
            ),
        decreases n - j,
    {
        assert(pair_ok(
        particles@,
        neighbors@,
        press@,
        cs@,
        i as int,
        j as int,
        dm as int,
        sigma as int,
        d as int,
        ));
        let terms: (i64, i64, i64, i64, i64) = pair_terms(
        particles,
        press,
        cs,
        neighbors,
        &omegas,
        i,
        j,
        dm,
        sigma,
        d,
        );
        let cax: i64 = terms.0;
        let cay: i64 = terms.1;
        let cdiv: i64 = terms.2;
        let cdu_i: i64 = terms.3;
        let cdu_j: i64 = terms.4;
        proof {
        let gi = i as int;
        let gj = j as int;
        lemma_row_snoc(particles@, neighbors@, press@, cs@, 0, gi, gi + 1, gj, dm as int, sigma as int, d as int);
        lemma_row_snoc(particles@, neighbors@, press@, cs@, 1, gi, gi + 1, gj, dm as int, sigma as int, d as int);
        lemma_row_snoc(particles@, neighbors@, press@, cs@, 2, gi, gi + 1, gj, dm as int, sigma as int, d as int);
        lemma_row_snoc(particles@, neighbors@, press@, cs@, 3, gi, gi + 1, gj, dm as int, sigma as int, d as int);
        }
        let ghost ax_before = axv@;
        let vi: i64 = axv[i] + cax;
        axv[i] = vi;
        proof {
        lemma_sum_update(ax_before, axv@, i as int, n as int);
        }
        let ghost ax_mid = axv@;
        let vj: i64 = axv[j] - cax;
        axv[j] = vj;
        proof {
        lemma_sum_update(ax_mid, axv@, j as int, n as int);
        }
        let ghost ay_before = ayv@;
        let wi: i64 = ayv[i] + cay;
        ayv[i] = wi;
        proof {
        lemma_sum_update(ay_before, ayv@, i as int, n as int);
        }
        let ghost ay_mid = ayv@;
        let wj: i64 = ayv[j] - cay;
        ayv[j] = wj;
        proof {
        lemma_sum_update(ay_mid, ayv@, j as int, n as int);
        }
        let di: i64 = dvv[i] + cdiv;
        dvv[i] = di;
        let dj: i64 = dvv[j] + cdiv;
        dvv[j] = dj;
        let ei: i64 = duv[i] + cdu_i;
        duv[i] = ei;
        let ej: i64 = duv[j] + cdu_j;
        duv[j] = ej;
        j = j + 1;
    }
    proof {
        lemma_col_extends_all(particles@, neighbors@, press@, cs@, i as int, n as int, dm as int, sigma as int, d as int);
    }
}

/// One full force pass: every unordered pair is visited exactly once,
/// its pressure-gradient and viscosity force is applied with opposite
/// signs to the two sides, and its divergence and thermal-rate
/// contributions are added to both; the accumulators are zeroed first.
/// Momentum conservation holds by construction: the summed `ax` and `ay`
/// over all particles vanish exactly. Pressures and sound speeds arrive
/// per particle, already evaluated by the chosen equation of state.
#[verifier::loop_isolation(false)]
#[verifier::rlimit(100)]
pub fn accelerations(
    particles: &mut Vec<Particle>,
    press: &Vec<i64>,
    cs: &Vec<i64>,
    neighbors: &Vec<Vec<usize>>,
    dm: i64,
    sigma: i64,
    d: u32,
)
    requires
        old(particles)@.len() <= 4096,
        press@.len() == old(particles)@.len(),
        cs@.len() == old(particles)@.len(),
        neighbors@.len() == old(particles)@.len(),
        all_pos_bounded(old(particles)@),
        0 <= dm <= 0x400000,
        0 <= sigma <= 0x400000,
        1 <= d <= 3,
        forall|i: int|
            0 <= i < old(particles)@.len() ==> {
                let p = #[trigger] old(particles)@[i];
                H_MIN <= p.h <= H_MAX && 1024 <= p.rho <= 0x40000000 && iabs(p.vx as int)
                    <= FX_BOUND && iabs(p.vy as int) <= FX_BOUND
            },
        forall|i: int| 0 <= i < press@.len() ==> 0 <= #[trigger] press@[i] <= FX_BOUND,
        forall|i: int| 0 <= i < cs@.len() ==> 0 <= #[trigger] cs@[i] <= FX_BOUND,
        forall|i: int|
            0 <= i < old(particles)@.len() ==> neigh_ok(
                (#[trigger] neighbors@[i])@,
                old(particles)@.len() as int,
            ),
        forall|i: int|
            0 <= i < old(particles)@.len() ==> spec_omega_den(
                (#[trigger] old(particles)@[i]).h as int,
                old(particles)@[i].rho as int,
                d as int,
            ) >= SCALE,
        forall|i: int|
            0 <= i < old(particles)@.len() ==> {
                let w = #[trigger] omega_of(old(particles)@, neighbors@, i, dm as int, sigma as int, d as int);
                0 < w <= 4 * SCALE && fxmul(
                    w,
                    fxmul(old(particles)@[i].rho as int, old(particles)@[i].rho as int),
                ) >= 1 && iabs(spec_acc_term(press@[i] as int, w, old(particles)@[i].rho as int))
                    <= FX_BOUND
            },
        forall|i: int, j: int|
            0 <= i < j < old(particles)@.len() ==> pair_ok(
                old(particles)@,
                neighbors@,
                press@,
                cs@,
                i,
                j,
                dm as int,
                sigma as int,
                d as int,
            ),
    ensures
        final (particles)@.len() == old(particles)@.len(),
        forall|i: int|
            0 <= i < final (particles)@.len() ==> {
                let p = #[trigger] final (particles)@[i];
                let q = old(particles)@[i];
                p.x == q.x && p.y == q.y && p.vx == q.vx && p.vy == q.vy && p.u == q.u && p.h
                    == q.h && p.rho == q.rho
            },
        spec_sum_ax(final (particles)@, final (particles)@.len() as int) == 0,
        spec_sum_ay(final (particles)@, final (particles)@.len() as int) == 0,
        forall|k: int|
            0 <= k < final (particles)@.len() ==> (#[trigger] final (particles)@[k]).ax
                == acc_total(
                old(particles)@,
                neighbors@,
                press@,
                cs@,
                0,
                k,
                dm as int,
                sigma as int,
                d as int,
            ),
        forall|k: int|
            0 <= k < final (particles)@.len() ==> (#[trigger] final (particles)@[k]).ay
                == acc_total(
                old(particles)@,
                neighbors@,
                press@,
                cs@,
                1,
                k,
                dm as int,
                sigma as int,
                d as int,
            ),
        forall|k: int|
            0 <= k < final (particles)@.len() ==> (#[trigger] final (particles)@[k]).divv
                == acc_total(
                old(particles)@,
                neighbors@,
                press@,
                cs@,
                2,
                k,
                dm as int,
                sigma as int,
                d as int,
            ),
        forall|k: int|
            0 <= k < final (particles)@.len() ==> (#[trigger] final (particles)@[k]).du
                == acc_total(
                old(particles)@,
                neighbors@,
                press@,
                cs@,
                3,
                k,
                dm as int,
                sigma as int,
                d as int,
            ),
{
    let ghost ps0 = particles@;
    let n: usize = particles.len();
    let mut omegas: Vec<i64> = Vec::new();
    let mut w: usize = 0;
    while w < n
        invariant
            w <= n,
            omegas@.len() == w as int,
            forall|k: int|
                0 <= k < w as int ==> #[trigger] omegas@[k] == omega_of(
                    ps0,
                    neighbors@,
                    k,
                    dm as int,
                    sigma as int,
                    d as int,
                ),
        decreases n - w,
    {
        let p = particles[w];
        let om: i64 = crate::density::omega(
            particles,
            w,
            &neighbors[w],
            dm,
            p.h,
            p.rho,
            sigma,
            d,
        );
        omegas.push(om);
        w = w + 1;
    }
    let mut axv: Vec<i64> = Vec::new();
    let mut ayv: Vec<i64> = Vec::new();
    let mut dvv: Vec<i64> = Vec::new();
    let mut duv: Vec<i64> = Vec::new();
    let mut z: usize = 0;
    while z < n
        invariant
            z <= n,
            axv@.len() == z as int && ayv@.len() == z as int && dvv@.len() == z as int
                && duv@.len() == z as int,
            forall|k: int| 0 <= k < z as int ==> (#[trigger] axv@[k]) == 0i64,
            forall|k: int| 0 <= k < z as int ==> (#[trigger] ayv@[k]) == 0i64,
            forall|k: int| 0 <= k < z as int ==> (#[trigger] dvv@[k]) == 0i64,
            forall|k: int| 0 <= k < z as int ==> (#[trigger] duv@[k]) == 0i64,
        decreases n - z,
    {
        axv.push(0);
        ayv.push(0);
        dvv.push(0);
        duv.push(0);
        z = z + 1;
    }
    proof {
        lemma_sum_zero(axv@, n as int);
        lemma_sum_zero(ayv@, n as int);
    }
    let mut i: usize = 0;
    while i < n
        invariant
            i <= n,
            particles@ == ps0,
            omegas@.len() == n as int,
            forall|k: int|
                0 <= k < n as int ==> #[trigger] omegas@[k] == omega_of(
                    ps0,
                    neighbors@,
                    k,
                    dm as int,
                    sigma as int,
                    d as int,
                ),
            axv@.len() == n as int && ayv@.len() == n as int && dvv@.len() == n as int
                && duv@.len() == n as int,
            sum_i64(axv@, n as int) == 0,
            sum_i64(ayv@, n as int) == 0,
            forall|k: int|
                0 <= k < n as int ==> iabs(#[trigger] axv@[k] as int) <= pair_touches(
                    n as int,
                    i as int,
                    i as int + 1,
                    k,
                ) * 0x40000000000,
            forall|k: int|
                0 <= k < n as int ==> iabs(#[trigger] ayv@[k] as int) <= pair_touches(
                    n as int,
                    i as int,
                    i as int + 1,
                    k,
                ) * 0x40000000000,
            forall|k: int|
                0 <= k < n as int ==> iabs(#[trigger] dvv@[k] as int) <= pair_touches(
                    n as int,
                    i as int,
                    i as int + 1,
                    k,
                ) * 0x40000000000,
            forall|k: int|
                0 <= k < n as int ==> iabs(#[trigger] duv@[k] as int) <= pair_touches(
                    n as int,
                    i as int,
                    i as int + 1,
                    k,
                ) * 0x40000000000,
            forall|k: int|
                0 <= k < n as int ==> (#[trigger] axv@[k]) as int == acc_state(
                    ps0,
                    neighbors@,
                    press@,
                    cs@,
                    0,
                    k,
                    i as int,
                    i as int + 1,
                    dm as int,
                    sigma as int,
                    d as int,
                ),
            forall|k: int|
                0 <= k < n as int ==> (#[trigger] ayv@[k]) as int == acc_state(
                    ps0,
                    neighbors@,
                    press@,
                    cs@,
                    1,
                    k,
                    i as int,
                    i as int + 1,
                    dm as int,
                    sigma as int,
                    d as int,
                ),
            forall|k: int|
                0 <= k < n as int ==> (#[trigger] dvv@[k]) as int == acc_state(
                    ps0,
                    neighbors@,
                    press@,
                    cs@,
                    2,
                    k,
                    i as int,
                    i as int + 1,
                    dm as int,
                    sigma as int,
                    d as int,
                ),
            forall|k: int|
                0 <= k < n as int ==> (#[trigger] duv@[k]) as int == acc_state(
                    ps0,
                    neighbors@,
                    press@,
                    cs@,
                    3,
                    k,
                    i as int,
                    i as int + 1,
                    dm as int,
                    sigma as int,
                    d as int,
                ),
        decreases n - i,
    {
        sweep_row(
            particles,
            press,
            cs,
            neighbors,
            &omegas,
            &mut axv,
            &mut ayv,
            &mut dvv,
            &mut duv,
            i,
            dm,
            sigma,
            d,
        );
        i = i + 1;
    }
    let mut k: usize = 0;
    while k < n
        invariant
            k <= n,
            particles@.len() == n as int,
            axv@.len() == n as int && ayv@.len() == n as int && dvv@.len() == n as int
                && duv@.len() == n as int,
            sum_i64(axv@, n as int) == 0,
            sum_i64(ayv@, n as int) == 0,
            forall|m: int| k as int <= m < n as int ==> #[trigger] particles@[m] == ps0[m],
            forall|m: int|
                0 <= m < k as int ==> {
                    let p = #[trigger] particles@[m];
                    let q = ps0[m];
                    p.ax == axv@[m] && p.ay == ayv@[m] && p.divv == dvv@[m] && p.du == duv@[m]
                        && p.x == q.x && p.y == q.y && p.vx == q.vx && p.vy == q.vy && p.u == q.u
                        && p.h == q.h && p.rho == q.rho
                },
        decreases n - k,
    {
        let mut p = particles[k];
        p.ax = axv[k];
        p.ay = ayv[k];
        p.divv = dvv[k];
        p.du = duv[k];
        particles[k] = p;
        k = k + 1;
    }
    proof {
        lemma_sum_columns(particles@, axv@, ayv@, n as int);
    }
}

/// Grad-h-weighted kernel gradient on one side of a pair with the given
/// separation: `dW/dq(r/h) sigma / (r h^(d+1))`.
fn grad_side(p: &Particle, r: i64, sigma: i64, d: u32) -> (g: i64)
    requires
        H_MIN <= p.h <= H_MAX,
        1024 <= r <= FX_BOUND,
        0 <= sigma <= 0x400000,
        1 <= d <= 3,
        fxmul(r as int, fxmul(fxpow(p.h as int, d as nat), p.h as int)) >= 1,
        iabs(
            fxdiv(
                fxmul(spec_dw_cubic(fxdiv(r as int, p.h as int)), sigma as int),
                fxmul(r as int, fxmul(fxpow(p.h as int, d as nat), p.h as int)),
            ),
        ) <= FX_BOUND,
    ensures
        g as int == fxdiv(
            fxmul(spec_dw_cubic(fxdiv(r as int, p.h as int)), sigma as int),
            fxmul(r as int, fxmul(fxpow(p.h as int, d as nat), p.h as int)),
        ),
        iabs(g as int) <= FX_BOUND,
{
    proof {
        crate::fixed::lemma_mul_sign(r as int, SCALE as int);
        crate::fixed::lemma_tdiv_sign((r as int) * (SCALE as int), p.h as int);
    }
    let q: i64 = div_fx(r, p.h);
    let dw: i64 = dfdq_cubic_kernel(q);
    proof {
        lemma_fxmul_bound(dw as int, sigma as int, 0x300000, 0x400000, 0x200000000);
    }
    let num: i64 = mul_fx(dw, sigma);
    let hp: i64 = pow_fx(p.h, d);
    proof {
        lemma_fxmul_bound(hp as int, p.h as int, 0x4000000000, 0x4000000, 0x100000000000);
    }
    let hp1: i64 = mul_fx(hp, p.h);
    proof {
        lemma_fxmul_bound(r as int, hp1 as int, 0x10000000000, 0x100000000000, 0x1000000000000000000);
    }
    let den: i128 = mul_fx128(r as i128, hp1 as i128);
    let g_wide: i128 = div_fx128(num as i128, den);
    g_wide as i64
}

/// Static body force of the two-dimensional toy star: a drag `nu v` and
/// a linear restoring pull `lambda x` taken off the acceleration.
pub fn body_forces_toy_star(particle: &mut Particle, nu: i64, lmbda: i64)
    requires
        0 <= nu <= 4 * SCALE,
        0 <= lmbda <= 4 * SCALE,
        iabs(old(particle).x as int) <= FX_BOUND,
        iabs(old(particle).y as int) <= FX_BOUND,
        iabs(old(particle).vx as int) <= FX_BOUND,
        iabs(old(particle).vy as int) <= FX_BOUND,
        iabs(old(particle).ax as int) <= 0x1000000000000000,
        iabs(old(particle).ay as int) <= 0x1000000000000000,
    ensures
        final (particle).ax == old(particle).ax - fxmul(nu as int, old(particle).vx as int)
            - fxmul(lmbda as int, old(particle).x as int),
        final (particle).ay == old(particle).ay - fxmul(nu as int, old(particle).vy as int)
            - fxmul(lmbda as int, old(particle).y as int),
        final (particle).x == old(particle).x && final (particle).y == old(particle).y,
        final (particle).vx == old(particle).vx && final (particle).vy == old(particle).vy,
        final (particle).u == old(particle).u && final (particle).du == old(particle).du,
        final (particle).h == old(particle).h && final (particle).rho == old(particle).rho,
        final (particle).divv == old(particle).divv,
{
    proof {
        lemma_fxmul_bound(nu as int, old(particle).vx as int, 0x400000, 0x10000000000, 0x40000000000);
        lemma_fxmul_bound(nu as int, old(particle).vy as int, 0x400000, 0x10000000000, 0x40000000000);
        lemma_fxmul_bound(lmbda as int, old(particle).x as int, 0x400000, 0x10000000000, 0x40000000000);
        lemma_fxmul_bound(lmbda as int, old(particle).y as int, 0x400000, 0x10000000000, 0x40000000000);
    }
    particle.ax = particle.ax - mul_fx(nu, particle.vx) - mul_fx(lmbda, particle.x);
    particle.ay = particle.ay - mul_fx(nu, particle.vy) - mul_fx(lmbda, particle.y);
}

} // verus!
