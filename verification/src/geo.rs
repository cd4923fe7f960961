//! Minimal integer geometry: a rectangle used as a coordinate mask.

use vstd::prelude::*;

verus! {

/// An axis-aligned rectangle with integer origin and extent.
#[derive(PartialEq, Eq, Clone, Copy, Debug)]
pub struct Recti {
    pub x: isize,
    pub y: isize,
    pub width: isize,
    pub height: isize,
}

} // verus!
