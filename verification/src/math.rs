//! Numeric utilities.

pub mod utils;
