use sphfunctions::boundary::periodic_boundary;
use sphfunctions::eos::{mon89_art_vis, mon97_art_vis, sound_speed_polytropic, thermal_energy};
use sphfunctions::fixed::{
    div_fx, div_trunc, isqrt, mean2, min_i64, mul_fx, sqrt_fx, FX_BOUND, SCALE,
};
use sphfunctions::kernel::{dfdq_cubic_kernel, dwdh, f_cubic_kernel};
use sphfunctions::particle::{euclidean_norm, Particle};

const S: i64 = SCALE;

#[test]
fn cubic_kernel_center_and_cutoff() {
    assert_eq!(f_cubic_kernel(0), S);
    assert_eq!(f_cubic_kernel(2 * S), 0);
    assert_eq!(f_cubic_kernel(3 * S), 0);
    assert_eq!(f_cubic_kernel(100 * S), 0);
}

#[test]
fn cubic_kernel_interior_values() {
    // W(1) = 1/4 and W(1/2) = 1 - (3/4)(1/4)(3/2) = 0.71875, exactly scaled.
    assert_eq!(f_cubic_kernel(S), S / 4);
    assert_eq!(f_cubic_kernel(S / 2), 753664);
}

#[test]
fn cubic_kernel_derivative_values() {
    assert_eq!(dfdq_cubic_kernel(0), 0);
    assert_eq!(dfdq_cubic_kernel(S), -786432);
    assert_eq!(dfdq_cubic_kernel(2 * S), 0);
    assert!(dfdq_cubic_kernel(S / 2) <= 0);
}

#[test]
fn kernel_smoothing_length_derivative() {
    assert_eq!(dwdh(0, 2), 2 * S);
    assert_eq!(dwdh(2 * S, 2), 0);
    assert_eq!(dwdh(5 * S, 3), 0);
}

#[test]
fn kernel_normalization_2d() {
    // The cubic kernel integrated over its 2D support, scaled by
    // sigma = 10 / (7 pi), comes out close to one.
    let sigma: f64 = 10.0 / (7.0 * std::f64::consts::PI);
    let steps: i64 = 4096;
    let dq: f64 = 2.0 / steps as f64;
    let mut integral: f64 = 0.0;
    let mut k: i64 = 0;
    while k < steps {
        let q = (k as f64 + 0.5) * dq;
        let w = f_cubic_kernel((q * S as f64) as i64) as f64 / S as f64;
        integral += w * q * dq;
        k += 1;
    }
    let total = 2.0 * std::f64::consts::PI * sigma * integral;
    assert!((total - 1.0).abs() < 0.01, "normalization was {}", total);
}

#[test]
fn fixed_point_products_and_quotients() {
    assert_eq!(mul_fx(1572864, 2097152), 3145728);
    assert_eq!(mul_fx(-1572864, 1048576), -1572864);
    assert_eq!(div_fx(3145728, 2097152), 1572864);
    // Quotients truncate toward zero.
    assert_eq!(div_fx(-1048576, 3145728), -349525);
    assert_eq!(div_trunc(-7, 2), -3);
    assert_eq!(div_trunc(7, 2), 3);
}

#[test]
fn square_roots() {
    assert_eq!(isqrt(25), 5);
    assert_eq!(isqrt(24), 4);
    assert_eq!(isqrt(0), 0);
    assert_eq!(sqrt_fx(0), 0);
    assert_eq!(sqrt_fx(4 * S), 2 * S);
    assert_eq!(sqrt_fx(S), S);
}

#[test]
fn small_helpers() {
    assert_eq!(mean2(3, 4), 3);
    assert_eq!(mean2(4, 4), 4);
    assert_eq!(min_i64(-2, 5), -2);
    assert_eq!(min_i64(7, 5), 5);
}

#[test]
fn euclidean_norm_three_four_five() {
    let a = Particle::new(0, 0, S, S);
    let b = Particle::new(3 * S, 4 * S, S, S);
    assert_eq!(euclidean_norm(&a, &b), 5 * S);
    assert_eq!(euclidean_norm(&a, &a), 0);
}

#[test]
fn particle_construction() {
    let p = Particle::new(7, -9, S, 2 * S);
    assert_eq!(p.x, 7);
    assert_eq!(p.y, -9);
    assert_eq!(p.h, S);
    assert_eq!(p.rho, 2 * S);
    assert_eq!(p.vx, 0);
    assert_eq!(p.ax, 0);
    assert_eq!(p.divv, 0);
    assert_eq!(p.u, 0);
    assert_eq!(p.du, 0);
}

#[test]
fn periodic_boundary_wraps_each_axis() {
    let w = S;
    let hgt = 2 * S;
    let mut p = Particle::new(3 * S / 2, -S / 2, S, S);
    periodic_boundary(&mut p, w, hgt);
    assert_eq!(p.x, S / 2);
    assert_eq!(p.y, 3 * S / 2);
    let mut q = Particle::new(S / 4, S / 4, S, S);
    periodic_boundary(&mut q, w, hgt);
    assert_eq!(q.x, S / 4);
    assert_eq!(q.y, S / 4);
}

#[test]
fn periodic_boundary_idempotent() {
    let w = S;
    let positions: [i64; 6] = [-S, -1, 0, S / 3, S + 1, 2 * S];
    for &x in positions.iter() {
        let mut once = Particle::new(x, x, S, S);
        periodic_boundary(&mut once, w, w);
        let mut twice = once;
        periodic_boundary(&mut twice, w, w);
        assert_eq!(once.x, twice.x);
        assert_eq!(once.y, twice.y);
        assert!(0 <= once.x && once.x <= w);
    }
}

#[test]
fn thermal_energy_unit_case() {
    // u = p / ((gamma - 1) rho) with everything one is one.
    assert_eq!(thermal_energy(S, S, 2 * S), S);
    // Doubling the density halves the energy.
    assert_eq!(thermal_energy(2 * S, S, 2 * S), S / 2);
}

#[test]
fn polytropic_sound_speed() {
    // cs = gamma sqrt(p / rho): sqrt(4) = 2.
    assert_eq!(sound_speed_polytropic(S, 4 * S, S), 2 * S);
    assert_eq!(sound_speed_polytropic(S, 0, S), 0);
}

#[test]
fn viscosity_signs() {
    // An approaching pair dissipates: the standard form is positive,
    // the signal-velocity form is nonpositive by its sign convention.
    let v89 = mon89_art_vis(S, -S / 4, S, S, S, S, S, S);
    assert!(v89 > 0, "mon89 gave {}", v89);
    let v97 = mon97_art_vis(S, -S / 4, S, S, S);
    assert!(v97 <= 0, "mon97 gave {}", v97);
}

#[test]
fn fixed_point_bound_is_generous() {
    assert!(FX_BOUND > 1_000_000 * S);
}
