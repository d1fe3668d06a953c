//! Drawings with Fourier series, the parts that hold no floating point: the
//! layout of the linear system that fits a piecewise cubic spline through
//! sampled points, what every exact solution of it satisfies, splines and
//! coefficient sets over any number type, the text formats of point and
//! coefficient files, hexadecimal colours, and integer raster primitives.

pub mod coeffs;
pub mod color;
pub mod error;
pub mod gif_file;
pub mod raster;
pub mod solution;
pub mod spline;
pub mod system;
pub mod text;
