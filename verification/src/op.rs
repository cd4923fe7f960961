//! Spatial operators: the kernel convolution engine and the filters built on
//! top of it.

pub mod blur;
pub mod filter;
pub mod sobel;
