use vstd::prelude::*;
use crate::fixed::{fxmul, iabs, lemma_fxmul_bound, mul_fx, FX_BOUND, SCALE};
use crate::particle::Particle;

verus! {

/// One explicit first-order step: position by the old velocity, velocity
/// by the acceleration, internal energy by its rate, all scaled by `dt`.
pub fn euler_integrator(particle: &mut Particle, dt: i64)
    requires
        0 <= dt <= SCALE,
        iabs(old(particle).x as int) <= FX_BOUND,
        iabs(old(particle).y as int) <= FX_BOUND,
        iabs(old(particle).vx as int) <= FX_BOUND,
        iabs(old(particle).vy as int) <= FX_BOUND,
        iabs(old(particle).ax as int) <= FX_BOUND,
        iabs(old(particle).ay as int) <= FX_BOUND,
        iabs(old(particle).u as int) <= FX_BOUND,
        iabs(old(particle).du as int) <= FX_BOUND,
    ensures
        final (particle).x == old(particle).x + fxmul(dt as int, old(particle).vx as int),
        final (particle).y == old(particle).y + fxmul(dt as int, old(particle).vy as int),
        final (particle).vx == old(particle).vx + fxmul(dt as int, old(particle).ax as int),
        final (particle).vy == old(particle).vy + fxmul(dt as int, old(particle).ay as int),
        final (particle).u == old(particle).u + fxmul(dt as int, old(particle).du as int),
        final (particle).ax == old(particle).ax && final (particle).ay == old(particle).ay,
        final (particle).du == old(particle).du && final (particle).divv == old(particle).divv,
        final (particle).h == old(particle).h && final (particle).rho == old(particle).rho,
{
    proof {
        lemma_fxmul_bound(dt as int, old(particle).vx as int, 0x100000, 0x10000000000, 0x10000000000);
        lemma_fxmul_bound(dt as int, old(particle).vy as int, 0x100000, 0x10000000000, 0x10000000000);
        lemma_fxmul_bound(dt as int, old(particle).ax as int, 0x100000, 0x10000000000, 0x10000000000);
        lemma_fxmul_bound(dt as int, old(particle).ay as int, 0x100000, 0x10000000000, 0x10000000000);
        lemma_fxmul_bound(dt as int, old(particle).du as int, 0x100000, 0x10000000000, 0x10000000000);
    }
    particle.x = particle.x + mul_fx(dt, particle.vx);
    particle.y = particle.y + mul_fx(dt, particle.vy);
    particle.vx = particle.vx + mul_fx(dt, particle.ax);
    particle.vy = particle.vy + mul_fx(dt, particle.ay);
    particle.u = particle.u + mul_fx(dt, particle.du);
}

} // verus!
