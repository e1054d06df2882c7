//! Core of a two-dimensional smoothed-particle-hydrodynamics (SPH) solver,
//! computed over fixed-point scalars (`SCALE` integer units stand for the
//! real value one) so that every routine carries an exact contract: the
//! smoothing kernel, the self-consistent density/smoothing-length solver,
//! the pairwise force and flux accumulator, equations of state and
//! artificial viscosity, the stability-bounded timestep controllers, the
//! explicit integration step and the periodic boundary handler.

pub mod boundary;
pub mod density;
pub mod eos;
pub mod fixed;
pub mod forces;
pub mod integrate;
pub mod kernel;
pub mod particle;
pub mod solver;
pub mod timestep;
