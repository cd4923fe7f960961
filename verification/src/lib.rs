//! An in-memory image-processing core: a channel-polymorphic pixel model,
//! strided 2D image buffers, boundary-policy sampling, and a convolution and
//! spatial-filtering engine (box, median, Sobel) with saturating arithmetic.

pub mod eye;
pub mod geo;
pub mod image;
pub mod math;
pub mod op;
pub mod pixel;
