//! The boundary sampler ("Eye"): a coordinate plus an out-of-bounds policy,
//! answering "what pixel value applies here" for any integer coordinate.

use vstd::prelude::*;
use crate::geo::Recti;
use crate::image::Image;
use crate::pixel::Pixel;

verus! {

/// A predicate over integer coordinates.
pub trait Mask {
    spec fn spec_valid(&self, x: int, y: int) -> bool;

    fn is_valid(&self, x: isize, y: isize) -> (r: bool)
        ensures
            r == self.spec_valid(x as int, y as int),
    ;
}

impl Mask for Recti {
    open spec fn spec_valid(&self, x: int, y: int) -> bool {
        &&& self.x <= x < self.x + self.width
        &&& self.y <= y < self.y + self.height
    }

    fn is_valid(&self, x: isize, y: isize) -> (r: bool) {
        (self.x as i128) <= (x as i128) && (x as i128) < (self.x as i128) + (self.width as i128)
            && (self.y as i128) <= (y as i128) && (y as i128) < (self.y as i128) + (
        self.height as i128)
    }
}

/// The boundary policy: what value an out-of-image coordinate takes.
#[derive(Debug, Clone, Copy)]
pub enum AlterType<P: Pixel> {
    Constant(P),
    Mirror,
    Extend,
}

/// Nearest-edge replication: clamps a coordinate into `[0, dim - 1]`.
pub open spec fn extend_coord(c: int, dim: int) -> int
    recommends
        dim >= 1,
{
    if c < 0 {
        0
    } else if c >= dim {
        dim - 1
    } else {
        c
    }
}

/// Mirror reduction: a negative coordinate reflects through zero, and one
/// strictly beyond `dim` wraps to `dim - (c mod dim)`. This is the classic
/// mirror-padding quirk, kept deliberately: it differs from true reflective
/// mirroring (`2 * dim - 1 - c`) and is partial (`c == dim`, or a reflected
/// multiple of `dim`, maps to `dim`, which no image cell has).
pub open spec fn mirror_coord(c: int, dim: int) -> int
    recommends
        dim >= 1,
{
    let a = if c < 0 {
        -c
    } else {
        c
    };
    if a > dim {
        dim - (a % dim)
    } else {
        a
    }
}

/// A boundary sampler: one coordinate, possibly outside the image, plus the
/// policy deciding what pixel value applies there.
#[derive(Debug, Clone, Copy)]
pub struct Eye<P: Pixel> {
    pub x: isize,
    pub y: isize,
    pub alter_type: AlterType<P>,
}

impl<P: Pixel> Eye<P> {
    /// What `look` returns: in-bounds coordinates read the image directly,
    /// out-of-bounds ones go through the policy.
    pub open spec fn look_spec(self, img: Image<P>) -> P
        recommends
            img.wf(),
    {
        if img.in_bounds(self.x as int, self.y as int) {
            img.pix(self.x as int, self.y as int)
        } else {
            match self.alter_type {
                AlterType::Constant(pixel) => pixel,
                AlterType::Extend => img.pix(
                    extend_coord(self.x as int, img.w as int),
                    extend_coord(self.y as int, img.h as int),
                ),
                AlterType::Mirror => img.pix(
                    mirror_coord(self.x as int, img.w as int),
                    mirror_coord(self.y as int, img.h as int),
                ),
            }
        }
    }

    /// When sampling at this coordinate is defined: `Constant` always
    /// answers; `Extend` and `Mirror` need a non-empty image, and `Mirror`
    /// additionally needs the reduced coordinate to land on a cell.
    pub open spec fn look_req(self, img: Image<P>) -> bool {
        match self.alter_type {
            AlterType::Constant(_) => true,
            AlterType::Extend => img.w >= 1 && img.h >= 1,
            AlterType::Mirror => {
                &&& img.w >= 1 && img.h >= 1
                &&& (img.in_bounds(self.x as int, self.y as int) || {
                    &&& self.x != isize::MIN && self.y != isize::MIN
                    &&& mirror_coord(self.x as int, img.w as int) < img.w
                    &&& mirror_coord(self.y as int, img.h as int) < img.h
                })
            },
        }
    }

    pub fn new(x: isize, y: isize) -> (r: Self)
        ensures
            r.x == x,
            r.y == y,
            r.alter_type is Extend,
    {
        Self::default().x(x).y(y)
    }

    pub fn x(self, x: isize) -> (r: Self)
        ensures
            r.x == x,
            r.y == self.y,
            r.alter_type == self.alter_type,
    {
        let mut s = self;
        s.x = x;
        s
    }

    pub fn y(self, y: isize) -> (r: Self)
        ensures
            r.x == self.x,
            r.y == y,
            r.alter_type == self.alter_type,
    {
        let mut s = self;
        s.y = y;
        s
    }

    pub fn constant(self, pixel: P) -> (r: Self)
        ensures
            r.x == self.x,
            r.y == self.y,
            r.alter_type == AlterType::Constant(pixel),
    {
        let mut s = self;
        s.alter_type = AlterType::Constant(pixel);
        s
    }

    pub fn mirror(self) -> (r: Self)
        ensures
            r.x == self.x,
            r.y == self.y,
            r.alter_type is Mirror,
    {
        let mut s = self;
        s.alter_type = AlterType::Mirror;
        s
    }

    pub fn extend(self) -> (r: Self)
        ensures
            r.x == self.x,
            r.y == self.y,
            r.alter_type is Extend,
    {
        let mut s = self;
        s.alter_type = AlterType::Extend;
        s
    }

    /// Samples the image at this sampler's coordinate: in-bounds coordinates
    /// bypass the policy and read the image directly.
    pub fn look(&self, img: &Image<P>) -> (r: P)
        requires
            img.wf(),
            img.w <= isize::MAX,
            img.h <= isize::MAX,
            self.look_req(*img),
        ensures
            r == self.look_spec(*img),
    {
        let w = img.width();
        let h = img.height();
        if 0 <= self.x && self.x < w as isize && 0 <= self.y && self.y < h as isize {
            return img.get(self.x as usize, self.y as usize);
        }
        match self.alter_type {
            AlterType::Constant(pixel) => pixel,
            AlterType::Extend => {
                let mut x = self.x;
                let mut y = self.y;
                if x > w as isize - 1 {
                    x = w as isize - 1;
                }
                if x < 0 {
                    x = 0;
                }
                if y > h as isize - 1 {
                    y = h as isize - 1;
                }
                if y < 0 {
                    y = 0;
                }
                img.get(x as usize, y as usize)
            },
            AlterType::Mirror => {
                let mut x = self.x;
                let mut y = self.y;
                if x < 0 {
                    x = -x;
                }
                if y < 0 {
                    y = -y;
                }
                if x > w as isize {
                    x = w as isize - (x % (w as isize));
                }
                if y > h as isize {
                    y = h as isize - (y % (h as isize));
                }
                img.get(x as usize, y as usize)
            },
        }
    }
}

impl<P: Pixel> Default for Eye<P> {
    /// The default sampler sits at the origin with the `Extend` policy.
    fn default() -> (r: Self)
        ensures
            r.x == 0,
            r.y == 0,
            r.alter_type is Extend,
    {
        Eye { x: 0, y: 0, alter_type: AlterType::Extend }
    }
}

} // verus!
