use vstd::prelude::*;
use crate::fixed::{
    iabs, is_sqrt, isqrt, lemma_mul_bound, lemma_sqrt_floor_is, lemma_square_nonneg,
    lemma_square_ordered, sqrt_floor, FX_BOUND,
};

verus! {

/// One fluid element. Every scalar is a fixed-point value (`SCALE` units
/// stand for one): position and velocity are kinematic state, `ax`/`ay`,
/// `du` and `divv` are accumulators that a force pass resets and refills,
/// `h` is the smoothing length and `rho` the density the solver maintains,
/// and `u` is the specific internal energy.
#[derive(Clone, Copy, Debug)]
pub struct Particle {
    pub x: i64,
    pub y: i64,
    pub vx: i64,
    pub vy: i64,
    pub ax: i64,
    pub ay: i64,
    pub u: i64,
    pub du: i64,
    pub h: i64,
    pub rho: i64,
    pub divv: i64,
}

impl Particle {
    /// A particle fresh from initial-condition data: position, smoothing
    /// length and density seeded, all rates and accumulators zero.
    pub fn new(x: i64, y: i64, h: i64, rho: i64) -> (p: Particle)
        ensures
            p.x == x && p.y == y && p.h == h && p.rho == rho,
            p.vx == 0 && p.vy == 0 && p.ax == 0 && p.ay == 0,
            p.u == 0 && p.du == 0 && p.divv == 0,
    {
        Particle { x, y, vx: 0, vy: 0, ax: 0, ay: 0, u: 0, du: 0, h, rho, divv: 0 }
    }
}

/// Squared distance between two particles' positions.
pub open spec fn sq_dist(p1: Particle, p2: Particle) -> int {
    (p1.x - p2.x) * (p1.x - p2.x) + (p1.y - p2.y) * (p1.y - p2.y)
}

/// Both coordinates of a particle stay within the representable domain.
pub open spec fn pos_bounded(p: Particle) -> bool {
    iabs(p.x as int) <= FX_BOUND && iabs(p.y as int) <= FX_BOUND
}

/// Scaled Euclidean distance between two particles, rounded down.
pub fn euclidean_norm(p1: &Particle, p2: &Particle) -> (r: i64)
    requires
        iabs(p1.x as int) <= FX_BOUND,
        iabs(p1.y as int) <= FX_BOUND,
        iabs(p2.x as int) <= FX_BOUND,
        iabs(p2.y as int) <= FX_BOUND,
    ensures
        is_sqrt(r as int, sq_dist(*p1, *p2)),
        r == sqrt_floor(sq_dist(*p1, *p2)),
        0 <= r <= 3 * FX_BOUND,
{
    let dx: i64 = p1.x - p2.x;
    let dy: i64 = p1.y - p2.y;
    proof {
        lemma_mul_bound(dx as int, dx as int, 2 * FX_BOUND as int, 2 * FX_BOUND as int);
        lemma_mul_bound(dy as int, dy as int, 2 * FX_BOUND as int, 2 * FX_BOUND as int);
        lemma_square_nonneg(dx as int);
        lemma_square_nonneg(dy as int);
    }
    let sq: i128 = (dx as i128) * (dx as i128) + (dy as i128) * (dy as i128);
    let r: u128 = isqrt(sq as u128);
    proof {
        if r > 3 * (FX_BOUND as u128) {
            lemma_square_ordered(3 * (FX_BOUND as int) + 1, r as int);
        }
        lemma_sqrt_floor_is(r as int, sq as int);
    }
    r as i64
}

} // verus!
