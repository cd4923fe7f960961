//! Range clamping for subpixel values.

use vstd::prelude::*;
use crate::pixel::Primitive;

verus! {

/// Clamps `x` into `[min, max]`: values below `min` become `min`, values
/// above `max` become `max`.
pub fn clip<T: Primitive>(x: T, min: T, max: T) -> (r: T)
    ensures
        r == (if x.as_int() < min.as_int() {
            min
        } else if x.as_int() > max.as_int() {
            max
        } else {
            x
        }),
{
    if !min.le(x) {
        return min;
    }
    if !x.le(max) {
        return max;
    }
    x
}

} // verus!
