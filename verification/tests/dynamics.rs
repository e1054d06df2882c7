use sphfunctions::density::{
    density_by_smoothing_length, density_kernel, omega, H_MAX, H_MIN,
};
use sphfunctions::fixed::SCALE;
use sphfunctions::forces::{acceleration_ab, accelerations, body_forces_toy_star};
use sphfunctions::integrate::euler_integrator;
use sphfunctions::particle::Particle;
use sphfunctions::solver::{f_iter, newton_raphson, smoothing_length};
use sphfunctions::timestep::{cfl_dt, force_dt, time_step_bale, time_step_mon, DT_INF, DT_SAFETY};

const S: i64 = SCALE;

fn pair_along_x(separation: i64, vx0: i64, vx1: i64) -> Vec<Particle> {
    let mut a = Particle::new(0, 0, S, S);
    let mut b = Particle::new(separation, 0, S, S);
    a.vx = vx0;
    b.vx = vx1;
    vec![a, b]
}

#[test]
fn density_from_smoothing_length() {
    assert_eq!(density_by_smoothing_length(S, S, S, 2), S);
    assert_eq!(density_by_smoothing_length(S, S, 2 * S, 2), 4 * S);
    assert_eq!(density_by_smoothing_length(0, S, S, 2), 0);
}

#[test]
fn kernel_summed_density_single_neighbor() {
    let ps = pair_along_x(S, 0, 0);
    let neigh: Vec<usize> = vec![1];
    // One neighbor at q = 1: rho = W(1) dm sigma / h^2 = 1/4.
    assert_eq!(density_kernel(&ps, 0, &neigh, S, S, S, 2), S / 4);
}

#[test]
fn kernel_summed_density_isolated() {
    let ps = vec![Particle::new(0, 0, S, S)];
    let empty: Vec<usize> = Vec::new();
    assert_eq!(density_kernel(&ps, 0, &empty, S, S, S, 2), 0);
}

#[test]
fn omega_without_neighbors_is_one() {
    let ps = vec![Particle::new(0, 0, S, S)];
    let empty: Vec<usize> = Vec::new();
    assert_eq!(omega(&ps, 0, &empty, S, S, S, S, 2), S);
}

#[test]
fn residual_balances_at_consistent_state() {
    // With one neighbor at q = 1 the kernel density is 1/4; the residual
    // is rho_h - rho_kernel = 1 - 1/4.
    let ps = pair_along_x(S, 0, 0);
    let neigh: Vec<usize> = vec![1];
    let (f, df) = f_iter(&ps, 0, &neigh, S, S, S, S, 2);
    assert_eq!(f, S - S / 4);
    assert!(df < 0);
}

#[test]
fn solver_reports_sentinel_for_isolated_particle() {
    // No neighbors: the kernel density is zero, the grad-h denominator
    // collapses, and the solve is abandoned.
    let ps = vec![Particle::new(0, 0, S, S)];
    let empty: Vec<usize> = Vec::new();
    assert_eq!(newton_raphson(0, &ps, &empty, S, S, S, S, 2, 1000, 20), 0);
}

#[test]
fn smoothing_length_freezes_isolated_particle() {
    let mut ps = vec![Particle::new(5, 6, S, S)];
    let neighbors: Vec<Vec<usize>> = vec![Vec::new()];
    let frozen = smoothing_length(&mut ps, &neighbors, S, S, S, 2, 1000, 20, 0);
    assert_eq!(frozen, 1);
    assert_eq!(ps[0].h, S);
    assert_eq!(ps[0].rho, 0);
    assert_eq!(ps[0].x, 5);
}

#[test]
fn smoothing_length_commits_consistent_density() {
    let mut ps = pair_along_x(3 * S / 2, 0, 0);
    let neighbors: Vec<Vec<usize>> = vec![vec![1], vec![0]];
    smoothing_length(&mut ps, &neighbors, S, S, S, 2, 1000, 20, 0);
    assert!(H_MIN <= ps[0].h && ps[0].h <= H_MAX);
    assert!(H_MIN <= ps[1].h && ps[1].h <= H_MAX);
    // The committed density is the kernel sum at the committed h.
    let rho_again = density_kernel(&ps, 0, &neighbors[0], S, ps[0].h, S, 2);
    assert_eq!(ps[0].rho, rho_again);
}

#[test]
fn pressure_free_pair_has_no_pressure_force() {
    let ps = pair_along_x(3 * S / 2, 0, 0);
    let f = acceleration_ab(&ps[0], &ps[1], 0, 0, S, S, -131072, -131072, 0);
    assert_eq!(f.len(), 2);
    assert_eq!(f[0], 0);
    assert_eq!(f[1], 0);
}

#[test]
fn viscous_pair_exchange() {
    // Two particles at separation 1.5 h, identical h and rho, opposite
    // velocities along the joining line, no pressure: the only force is
    // the artificial viscosity, applied with opposite signs, and both
    // divergence accumulators receive the same contribution.
    let mut ps = pair_along_x(3 * S / 2, S / 4, -S / 4);
    let press: Vec<i64> = vec![0, 0];
    let cs: Vec<i64> = vec![S, S];
    let neighbors: Vec<Vec<usize>> = vec![vec![1], vec![0]];
    accelerations(&mut ps, &press, &cs, &neighbors, S, S, 2);
    assert!(ps[0].ax != 0);
    assert!(ps[0].ax < 0, "viscosity must brake the approach");
    assert_eq!(ps[0].ax + ps[1].ax, 0);
    assert_eq!(ps[0].ay, 0);
    assert_eq!(ps[1].ay, 0);
    assert_eq!(ps[0].divv, ps[1].divv);
    assert_eq!(ps[0].divv, 98304);
    assert_eq!(ps[0].du, ps[1].du);
    // Positions, velocities and thermodynamic state are untouched.
    assert_eq!(ps[0].x, 0);
    assert_eq!(ps[1].vx, -S / 4);
    assert_eq!(ps[0].rho, S);
}

#[test]
fn momentum_conserved_over_three_bodies() {
    let mut a = Particle::new(0, 0, S, S);
    let mut b = Particle::new(1258291, 0, S, S);
    let mut c = Particle::new(0, 1258291, S, S);
    a.vx = S / 8;
    b.vx = -S / 8;
    b.vy = S / 8;
    c.vy = -S / 8;
    let mut ps = vec![a, b, c];
    let press: Vec<i64> = vec![S / 4, S / 4, S / 4];
    let cs: Vec<i64> = vec![S, S, S];
    let neighbors: Vec<Vec<usize>> = vec![vec![1, 2], vec![0, 2], vec![0, 1]];
    accelerations(&mut ps, &press, &cs, &neighbors, S, S, 2);
    assert_eq!(ps[0].ax + ps[1].ax + ps[2].ax, 0);
    assert_eq!(ps[0].ay + ps[1].ay + ps[2].ay, 0);
    assert!(ps[0].ax != 0 || ps[0].ay != 0);
}

#[test]
fn timestep_bounds_per_particle() {
    assert_eq!(force_dt(S, 0, DT_SAFETY), DT_INF);
    assert_eq!(force_dt(S, S, DT_SAFETY), DT_SAFETY);
    assert_eq!(cfl_dt(S, S, 0, S, 2 * S), DT_SAFETY);
    // A converging flow stiffens the bound.
    assert!(cfl_dt(S, S, -S / 2, S, 2 * S) < DT_SAFETY);
    // A motionless, pressureless particle imposes no bound.
    assert_eq!(cfl_dt(S, 0, 0, S, 2 * S), DT_INF);
}

#[test]
fn bale_timestep_takes_global_minimum() {
    let empty: Vec<Particle> = Vec::new();
    let no_cs: Vec<i64> = Vec::new();
    assert_eq!(time_step_bale(&empty, &no_cs, S), S);
    let ps = vec![Particle::new(0, 0, S, S)];
    let cs: Vec<i64> = vec![S];
    assert_eq!(time_step_bale(&ps, &cs, S), DT_SAFETY);
}

#[test]
fn bale_timestep_monotone_in_acceleration() {
    let mut p = Particle::new(0, 0, S, S);
    p.ax = S;
    let cs: Vec<i64> = vec![S];
    let dt1 = time_step_bale(&vec![p], &cs, S);
    let mut q = p;
    q.ax = 4 * S;
    let dt2 = time_step_bale(&vec![q], &cs, S);
    assert!(dt2 < dt1, "larger acceleration must not lengthen dt");
}

#[test]
fn signal_velocity_timestep() {
    let empty: Vec<Particle> = Vec::new();
    let no_cs: Vec<i64> = Vec::new();
    assert_eq!(time_step_mon(&empty, &no_cs, S), S);
    let ps = pair_along_x(3 * S / 2, 0, 0);
    let cs: Vec<i64> = vec![S, S];
    assert_eq!(time_step_mon(&ps, &cs, S), DT_SAFETY);
    // An approaching pair raises the signal velocity and tightens dt.
    let moving = pair_along_x(3 * S / 2, S / 2, -S / 2);
    assert!(time_step_mon(&moving, &cs, S) < DT_SAFETY);
}

#[test]
fn explicit_integration_step() {
    let mut p = Particle::new(0, 0, S, S);
    p.vx = S;
    p.ax = S / 4;
    p.du = S / 2;
    euler_integrator(&mut p, S / 2);
    assert_eq!(p.x, S / 2);
    assert_eq!(p.vx, S + S / 8);
    assert_eq!(p.u, S / 4);
    assert_eq!(p.h, S);
}

#[test]
fn toy_star_body_forces() {
    let mut p = Particle::new(S, 0, S, S);
    p.vx = S;
    body_forces_toy_star(&mut p, S, S / 2);
    // ax -= nu vx + lambda x = 1 + 1/2.
    assert_eq!(p.ax, -(S + S / 2));
    assert_eq!(p.ay, 0);
}
