//! The verified core of a progressive path tracer.
//!
//! The tracer renders a small scene of metal spheres over a chequered floor, pass after
//! pass, each pass with twice the samples of the one before, and shows the picture while
//! it sharpens. This crate holds what is decided in integers and is proved with Verus:
//!
//! - `schedule`: the order of the jobs, a row and a sample count each;
//! - `pool`: which job goes to which free worker, and when the render is over;
//! - `render`: the work of one job, a row of sums of draws;
//! - `film`: the picture that finished rows are merged into, and its display bytes;
//! - `glass`: the scene, the tests of a ray against sphere and floor, the nearest hit
//!   and the length of a light path;
//! - `scalar`: comparison of single-precision numbers by their bit patterns;
//! - `test_pattern`: a picture that needs no tracing.
//!
//! Arithmetic on real numbers is left to the caller, who hands it in as functions or
//! hands over its results.

pub mod film;
pub mod glass;
pub mod pool;
pub mod render;
pub mod scalar;
pub mod schedule;
pub mod test_pattern;
