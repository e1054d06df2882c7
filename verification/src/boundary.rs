use vstd::prelude::*;
use crate::fixed::FX_BOUND;
use crate::particle::Particle;

verus! {

/// One axis of the periodic wrap: a coordinate beyond the extent comes
/// back by one extent, one below zero advances by one extent.
pub open spec fn spec_wrap(x: int, w: int) -> int {
    if x > w {
        x - w
    } else if x < 0 {
        x + w
    } else {
        x
    }
}

/// Applying the periodic wrap twice gives the same coordinate as applying
/// it once, for any position no farther than one extent outside the domain
/// (the timestep bound keeps every move below one extent).
pub proof fn lemma_wrap_idempotent(x: int, w: int)
    requires
        0 < w,
        -w <= x <= 2 * w,
    ensures
        spec_wrap(spec_wrap(x, w), w) == spec_wrap(x, w),
{
}

/// After one wrap a coordinate from at most one extent outside lies in
/// the domain.
pub proof fn lemma_wrap_contains(x: int, w: int)
    requires
        0 < w,
        -w <= x <= 2 * w,
    ensures
        0 <= spec_wrap(x, w) <= w,
{
}

/// Periodic boundary over a rectangular domain of width `w` and height
/// `h`: each coordinate is remapped independently, exactly once.
pub fn periodic_boundary(particle: &mut Particle, w: i64, h: i64)
    requires
        0 < w <= FX_BOUND,
        0 < h <= FX_BOUND,
        -FX_BOUND <= old(particle).x <= 2 * FX_BOUND,
        -FX_BOUND <= old(particle).y <= 2 * FX_BOUND,
    ensures
        final (particle).x == spec_wrap(old(particle).x as int, w as int),
        final (particle).y == spec_wrap(old(particle).y as int, h as int),
        final (particle).vx == old(particle).vx && final (particle).vy == old(particle).vy,
        final (particle).ax == old(particle).ax && final (particle).ay == old(particle).ay,
        final (particle).u == old(particle).u && final (particle).du == old(particle).du,
        final (particle).h == old(particle).h && final (particle).rho == old(particle).rho,
        final (particle).divv == old(particle).divv,
        -w <= old(particle).x <= 2 * w ==> 0 <= final (particle).x <= w,
        -h <= old(particle).y <= 2 * h ==> 0 <= final (particle).y <= h,
{
    if particle.x > w {
        particle.x = particle.x - w;
    } else if particle.x < 0 {
        particle.x = particle.x + w;
    }
    if particle.y > h {
        particle.y = particle.y - h;
    } else if particle.y < 0 {
        particle.y = particle.y + h;
    }
}

} // verus!
