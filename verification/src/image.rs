//! The image buffer: flat, contiguous, strided 2D storage of pixels with
//! row-major indexing, filling, and iteration.

use vstd::prelude::*;
use crate::pixel::{AlphaPixel, Binary, Pixel, Primitive, BGR, BGRA, Gray};

verus! {

/// Errors reported by image construction and access.
#[derive(PartialEq, Eq, Clone, Copy, Debug)]
pub enum ImageError {
    InvalidImage,
    OutOfRegion,
    OutOfMemoryError,
    UnknownImageFormat,
    UnknownError,
}

/// Marks image types and names their pixel kind.
pub trait GenericImage {
    type Pixel: Pixel;
}

/// A 2D image owning a flat buffer of `stride * height` pixels, row-major.
/// Invariant (`wf`): `stride == width` and the buffer holds exactly
/// `stride * height` pixels; cell `(x, y)` lives at offset `stride * y + x`.
#[derive(PartialEq, Eq, Debug, Clone)]
pub struct Image<T: Pixel> {
    pub w: usize,
    pub h: usize,
    pub stride: usize,
    pub data: Vec<T>,
}

impl<T: Pixel> GenericImage for Image<T> {
    type Pixel = T;
}

/// Offset of cell `(x, y)` within a grid of the given stride is in range
/// whenever the cell is.
pub proof fn lemma_grid_index(stride: int, h: int, x: int, y: int)
    requires
        0 <= x < stride,
        0 <= y < h,
    ensures
        0 <= stride * y + x < stride * h,
{
    assert(0 <= stride * y + x < stride * h) by (nonlinear_arith)
        requires
            0 <= x < stride,
            0 <= y < h,
    ;
}

/// Row-major offsets decompose uniquely into coordinates.
pub proof fn lemma_grid_offset(w: int, x: int, y: int)
    requires
        0 <= x < w,
        0 <= y,
    ensures
        (w * y + x) / w == y,
        (w * y + x) % w == x,
{
    assert((w * y + x) / w == y && (w * y + x) % w == x) by (nonlinear_arith)
        requires
            0 <= x < w,
            0 <= y,
    ;
}

impl<T: Pixel> Image<T> {
    /// Well-formedness: the buffer length matches the dimensions.
    pub open spec fn wf(self) -> bool {
        &&& self.stride == self.w
        &&& self.data@.len() == self.stride * self.h
    }

    pub open spec fn in_bounds(self, x: int, y: int) -> bool {
        0 <= x < self.w && 0 <= y < self.h
    }

    /// The pixel stored at cell `(x, y)`.
    pub open spec fn pix(self, x: int, y: int) -> T
        recommends
            self.wf(),
            self.in_bounds(x, y),
    {
        self.data@[self.stride * y + x]
    }

    /// Allocates a `width` by `height` image. Every cell starts out as the
    /// zero pixel; callers that need other contents fill the image next.
    pub fn new(width: usize, height: usize) -> (img: Image<T>)
        requires
            width * height <= usize::MAX,
        ensures
            img.wf(),
            img.w == width,
            img.h == height,
            img.stride == width,
            forall|x: int, y: int|
                img.in_bounds(x, y) ==> forall|c: int|
                    0 <= c < T::spec_channels() ==> #[trigger] img.pix(
                        x,
                        y,
                    ).channel_seq()[c].as_int() == 0,
    {
        let len = width * height;
        let z = T::zero();
        let mut data: Vec<T> = Vec::new();
        let mut k: usize = 0;
        while k < len
            invariant
                k <= len,
                data@.len() == k,
                forall|j: int| 0 <= j < k ==> data@[j] == z,
            decreases len - k,
        {
            data.push(z);
            k += 1;
        }
        let img = Image { w: width, h: height, stride: width, data };
        proof {
            assert forall|x: int, y: int| img.in_bounds(x, y) implies forall|c: int|
                0 <= c < T::spec_channels() ==> #[trigger] img.pix(x, y).channel_seq()[c].as_int()
                    == 0 by {
                lemma_grid_index(width as int, height as int, x, y);
            }
        }
        img
    }

    pub fn width(&self) -> (r: usize)
        ensures
            r == self.w,
    {
        self.w
    }

    pub fn height(&self) -> (r: usize)
        ensures
            r == self.h,
    {
        self.h
    }

    pub fn size(&self) -> (r: (usize, usize))
        ensures
            r.0 == self.w,
            r.1 == self.h,
    {
        (self.w, self.h)
    }

    pub fn stride(&self) -> (r: usize)
        ensures
            r == self.stride,
    {
        self.stride
    }

    pub fn channels(&self) -> (r: usize)
        ensures
            r == T::spec_channels(),
    {
        T::channels()
    }

    pub fn bits_per_pixel(&self) -> (r: usize)
        ensures
            r == 8 * T::spec_channels(),
    {
        T::bits_per_pixel()
    }

    /// Bytes per buffer row at 8 bits per subpixel channel.
    pub fn bytes_per_row(&self) -> (r: usize)
        requires
            self.stride * T::spec_channels() <= usize::MAX,
        ensures
            r == self.stride * T::spec_channels(),
    {
        self.stride * (T::bits_per_pixel() / 8)
    }

    /// Same as `bytes_per_row`.
    pub fn pitch(&self) -> (r: usize)
        requires
            self.stride * T::spec_channels() <= usize::MAX,
        ensures
            r == self.stride * T::spec_channels(),
    {
        self.bytes_per_row()
    }

    /// The whole pixel buffer as a slice, row-major.
    pub fn pixels(&self) -> (r: &[T])
        ensures
            r@ == self.data@,
    {
        self.data.as_slice()
    }

    /// The whole pixel buffer as a mutable slice, row-major; the dimensions
    /// cannot change through it.
    pub fn pixels_mut(&mut self) -> (r: &mut [T])
        ensures
            r@ == old(self).data@,
            final(self).data@ == final(r)@,
            final(self).w == old(self).w,
            final(self).h == old(self).h,
            final(self).stride == old(self).stride,
    {
        self.data.as_mut_slice()
    }

    /// The raw subpixel buffer, row-major, channel after channel: entry `k`
    /// is channel `k % channels` of pixel `k / channels` of the flat buffer.
    pub fn raw(&self) -> (r: Vec<T::Subpixel>)
        requires
            self.wf(),
            self.data@.len() * T::spec_channels() <= usize::MAX,
        ensures
            r@.len() == self.data@.len() * T::spec_channels(),
            forall|k: int|
                0 <= k < r@.len() ==> #[trigger] r@[k] == self.data@[k / (
                T::spec_channels() as int)].channel_seq()[k % (T::spec_channels() as int)],
    {
        let ch = T::channels();
        let z = T::zero();
        proof {
            z.lemma_channel_count();
        }
        let len = self.data.len();
        let mut out: Vec<T::Subpixel> = Vec::new();
        let mut p: usize = 0;
        while p < len
            invariant
                self.wf(),
                ch == T::spec_channels(),
                1 <= ch <= 4,
                len == self.data@.len(),
                len * ch <= usize::MAX,
                p <= len,
                out@.len() == p * ch,
                forall|k: int|
                    0 <= k < out@.len() ==> #[trigger] out@[k] == self.data@[k / (
                    ch as int)].channel_seq()[k % (ch as int)],
            decreases len - p,
        {
            proof {
                assert(p * ch + ch == (p + 1) * ch <= len * ch) by (nonlinear_arith)
                    requires
                        p + 1 <= len,
                        ch >= 1,
                ;
            }
            let pix = self.data[p];
            proof {
                pix.lemma_channel_count();
            }
            let mut c: usize = 0;
            while c < ch
                invariant
                    self.wf(),
                    ch == T::spec_channels(),
                    1 <= ch <= 4,
                    len == self.data@.len(),
                    p < len,
                    c <= ch,
                    p * ch + ch <= len * ch,
                    len * ch <= usize::MAX,
                    pix == self.data@[p as int],
                    pix.channel_seq().len() == ch,
                    out@.len() == p * ch + c,
                    forall|k: int|
                        0 <= k < out@.len() ==> #[trigger] out@[k] == self.data@[k / (
                        ch as int)].channel_seq()[k % (ch as int)],
                decreases ch - c,
            {
                out.push(pix.channel(c));
                proof {
                    lemma_grid_offset(ch as int, c as int, p as int);
                    assert((ch as int) * (p as int) + (c as int) == (p as int) * (ch as int) + (
                    c as int)) by (nonlinear_arith);
                }
                c += 1;
            }
            p += 1;
            proof {
                assert(p * ch == (p - 1) * ch + ch) by (nonlinear_arith);
            }
        }
        out
    }

    /// The contiguous slice for row `y` (the full stride).
    pub fn row(&self, y: usize) -> (r: Result<&[T], ImageError>)
        requires
            self.wf(),
        ensures
            y < self.h <==> r is Ok,
            r matches Ok(s) ==> s@ == self.data@.subrange(
                self.stride * y,
                self.stride * y + self.stride,
            ),
    {
        if y >= self.h {
            return Err(ImageError::OutOfRegion);
        }
        let _buf_len = self.data.len();
        proof {
            assert(0 <= self.stride * y && self.stride * y + self.stride == self.stride * (y + 1)
                <= self.stride * self.h) by (nonlinear_arith)
                requires
                    0 <= y,
                    y + 1 <= self.h,
                    self.stride >= 0,
            ;
        }
        let start = self.stride * y;
        Ok(&self.data.as_slice()[start..start + self.stride])
    }

    /// Reads cell `(x, y)`. Callers must bounds-check; out-of-range access is
    /// rejected statically rather than clamped.
    pub fn get(&self, x: usize, y: usize) -> (r: T)
        requires
            self.wf(),
            x < self.w,
            y < self.h,
        ensures
            r == self.pix(x as int, y as int),
    {
        let _buf_len = self.data.len();
        proof {
            lemma_grid_index(self.stride as int, self.h as int, x as int, y as int);
        }
        self.data[self.stride * y + x]
    }

    /// Overwrites cell `(x, y)`; all other cells and the dimensions are kept.
    pub fn put(&mut self, x: usize, y: usize, v: T)
        requires
            old(self).wf(),
            x < old(self).w,
            y < old(self).h,
        ensures
            final(self).wf(),
            final(self).w == old(self).w,
            final(self).h == old(self).h,
            final(self).stride == old(self).stride,
            final(self).data@ == old(self).data@.update(old(self).stride * y + x, v),
            final(self).pix(x as int, y as int) == v,
            forall|i: int, j: int|
                old(self).in_bounds(i, j) && !(i == x && j == y) ==> #[trigger] final(self).pix(
                    i,
                    j,
                ) == old(self).pix(i, j),
    {
        let _buf_len = self.data.len();
        proof {
            lemma_grid_index(self.stride as int, self.h as int, x as int, y as int);
        }
        let off = self.stride * y + x;
        self.data[off] = v;
        proof {
            assert forall|i: int, j: int|
                old(self).in_bounds(i, j) && !(i == x && j == y) implies #[trigger] final(self).pix(i, j) == old(self).pix(i, j) by {
                lemma_grid_index(self.stride as int, self.h as int, i, j);
                if self.stride * j + i == self.stride * y + x {
                    lemma_grid_offset(self.stride as int, i, j);
                    lemma_grid_offset(self.stride as int, x as int, y as int);
                }
            }
        }
    }

    /// Overwrites every cell with `v`.
    pub fn fill(&mut self, v: &T)
        requires
            old(self).wf(),
        ensures
            final(self).wf(),
            final(self).w == old(self).w,
            final(self).h == old(self).h,
            final(self).stride == old(self).stride,
            forall|x: int, y: int|
                final(self).in_bounds(x, y) ==> #[trigger] final(self).pix(x, y) == *v,
    {
        let len = self.data.len();
        let mut k: usize = 0;
        while k < len
            invariant
                k <= len,
                self.data@.len() == len,
                self.w == old(self).w,
                self.h == old(self).h,
                self.stride == old(self).stride,
                forall|j: int| 0 <= j < k ==> self.data@[j] == *v,
            decreases len - k,
        {
            self.data[k] = *v;
            k += 1;
        }
        proof {
            assert forall|x: int, y: int| final(self).in_bounds(x, y) implies #[trigger] final(self).pix(x, y) == *v by {
                lemma_grid_index(self.stride as int, self.h as int, x, y);
            }
        }
    }

    /// Overwrites every cell with the zero pixel.
    pub fn zero(&mut self)
        requires
            old(self).wf(),
        ensures
            final(self).wf(),
            final(self).w == old(self).w,
            final(self).h == old(self).h,
            final(self).stride == old(self).stride,
            forall|x: int, y: int|
                final(self).in_bounds(x, y) ==> forall|c: int|
                    0 <= c < T::spec_channels() ==> #[trigger] final(self).pix(
                        x,
                        y,
                    ).channel_seq()[c].as_int() == 0,
    {
        let z = T::zero();
        self.fill(&z);
    }

    /// Overwrites channel `ch_idx` of every cell with `v`, leaving the other
    /// channels alone; rejects a channel index that is out of range.
    pub fn fill_channel(&mut self, ch_idx: usize, v: T::Subpixel) -> (r: Result<(), ImageError>)
        requires
            old(self).wf(),
        ensures
            ch_idx < T::spec_channels() <==> r is Ok,
            r is Err ==> *final(self) == *old(self),
            r is Ok ==> {
                &&& final(self).wf()
                &&& final(self).w == old(self).w
                &&& final(self).h == old(self).h
                &&& final(self).stride == old(self).stride
                &&& forall|x: int, y: int|
                    final(self).in_bounds(x, y) ==> #[trigger] final(self).pix(x, y).channel_seq()
                        == old(self).pix(x, y).channel_seq().update(ch_idx as int, v)
            },
    {
        if ch_idx >= T::channels() {
            return Err(ImageError::OutOfRegion);
        }
        let len = self.data.len();
        let mut k: usize = 0;
        while k < len
            invariant
                k <= len,
                ch_idx < T::spec_channels(),
                self.data@.len() == len,
                self.w == old(self).w,
                self.h == old(self).h,
                self.stride == old(self).stride,
                forall|j: int|
                    0 <= j < k ==> #[trigger] self.data@[j].channel_seq()
                        == old(self).data@[j].channel_seq().update(ch_idx as int, v),
                forall|j: int| k <= j < len ==> #[trigger] self.data@[j] == old(self).data@[j],
            decreases len - k,
        {
            let mut p = self.data[k];
            p.set_channel(ch_idx, v);
            self.data[k] = p;
            k += 1;
        }
        proof {
            assert forall|x: int, y: int| final(self).in_bounds(x, y) implies #[trigger] final(self).pix(x, y).channel_seq() == old(self).pix(x, y).channel_seq().update(ch_idx as int, v) by {
                lemma_grid_index(self.stride as int, self.h as int, x, y);
            }
        }
        Ok(())
    }

    /// Builds an image over a copy of `data`, which must hold exactly
    /// `width * height` pixels.
    pub fn from_raw(width: usize, height: usize, data: &[T]) -> (r: Result<Image<T>, ImageError>)
        ensures
            (width * height == data@.len()) <==> r is Ok,
            r matches Ok(img) ==> {
                &&& img.wf()
                &&& img.w == width
                &&& img.h == height
                &&& img.stride == width
                &&& img.data@ == data@
            },
    {
        let len = match width.checked_mul(height) {
            Some(l) => l,
            None => {
                let dlen = data.len();
                proof {
                    assert(width * height > usize::MAX >= dlen);
                }
                return Err(ImageError::InvalidImage);
            },
        };
        if len != data.len() {
            return Err(ImageError::InvalidImage);
        }
        let mut buf: Vec<T> = Vec::new();
        let mut k: usize = 0;
        while k < len
            invariant
                k <= len,
                len == data@.len(),
                buf@.len() == k,
                forall|j: int| 0 <= j < k ==> buf@[j] == data@[j],
            decreases len - k,
        {
            buf.push(data[k]);
            k += 1;
        }
        proof {
            assert(buf@ =~= data@);
        }
        Ok(Image { w: width, h: height, stride: width, data: buf })
    }

    /// Visits every cell exactly once, in row-major order: entry `k` of the
    /// result is `(k % width, k / width)` together with that cell's pixel.
    pub fn iter(&self) -> (r: Vec<(usize, usize, T)>)
        requires
            self.wf(),
        ensures
            r@.len() == self.w * self.h,
            forall|k: int| #![trigger r@[k]]
                0 <= k < r@.len() ==> {
                    &&& r@[k].0 == k % (self.w as int)
                    &&& r@[k].1 == k / (self.w as int)
                    &&& r@[k].2 == self.pix(k % (self.w as int), k / (self.w as int))
                },
    {
        let mut out: Vec<(usize, usize, T)> = Vec::new();
        if self.w == 0 {
            proof {
                assert(self.w * self.h == 0) by (nonlinear_arith)
                    requires
                        self.w == 0,
                ;
            }
            return out;
        }
        let mut y: usize = 0;
        while y < self.h
            invariant
                self.wf(),
                0 < self.w,
                y <= self.h,
                out@.len() == self.w * y,
                forall|k: int| #![trigger out@[k]]
                    0 <= k < out@.len() ==> {
                        &&& out@[k].0 == k % (self.w as int)
                        &&& out@[k].1 == k / (self.w as int)
                        &&& out@[k].2 == self.pix(k % (self.w as int), k / (self.w as int))
                    },
            decreases self.h - y,
        {
            let mut x: usize = 0;
            proof {
                assert(self.w * y + self.w == self.w * (y + 1) <= self.w * self.h)
                    by (nonlinear_arith)
                    requires
                        y + 1 <= self.h,
                        0 < self.w,
                ;
            }
            while x < self.w
                invariant
                    self.wf(),
                    0 < self.w,
                    y < self.h,
                    x <= self.w,
                    out@.len() == self.w * y + x,
                    self.w * y + self.w <= self.w * self.h,
                    forall|k: int| #![trigger out@[k]]
                        0 <= k < out@.len() ==> {
                            &&& out@[k].0 == k % (self.w as int)
                            &&& out@[k].1 == k / (self.w as int)
                            &&& out@[k].2 == self.pix(k % (self.w as int), k / (self.w as int))
                        },
                decreases self.w - x,
            {
                let p = self.get(x, y);
                out.push((x, y, p));
                proof {
                    lemma_grid_offset(self.w as int, x as int, y as int);
                }
                x += 1;
            }
            y += 1;
            proof {
                assert(self.w * y == self.w * (y - 1) + self.w) by (nonlinear_arith);
            }
        }
        proof {
            assert(out@.len() == self.w * self.h);
        }
        out
    }
}

/// Image types whose pixels carry an alpha channel.
pub trait AlphaImage {
    /// Well-formedness of the underlying image buffer.
    spec fn alpha_wf(&self) -> bool;

    /// Writes the maximum subpixel value into every cell's alpha channel.
    fn set_alpha(&mut self)
        requires
            old(self).alpha_wf(),
        ensures
            final(self).alpha_wf(),
    ;
}

impl<T: AlphaPixel> AlphaImage for Image<T> {
    open spec fn alpha_wf(&self) -> bool {
        self.wf()
    }

    fn set_alpha(&mut self)
        ensures
            final(self).w == old(self).w,
            final(self).h == old(self).h,
            final(self).stride == old(self).stride,
            forall|x: int, y: int|
                final(self).in_bounds(x, y) ==> {
                    &&& #[trigger] final(self).pix(x, y).channel_seq().len() == old(self).pix(
                        x,
                        y,
                    ).channel_seq().len()
                    &&& final(self).pix(x, y).channel_seq()[T::spec_alpha_index() as int].as_int()
                        == T::Subpixel::spec_max()
                    &&& forall|c: int|
                        0 <= c < old(self).pix(x, y).channel_seq().len() && c
                            != T::spec_alpha_index() ==> #[trigger] final(self).pix(
                            x,
                            y,
                        ).channel_seq()[c] == old(self).pix(x, y).channel_seq()[c]
                },
    {
        proof {
            T::lemma_alpha_index();
        }
        let r = self.fill_channel(T::alpha_index(), T::Subpixel::max_value());
        proof {
            assert(r is Ok);
            assert forall|x: int, y: int| self.in_bounds(x, y) implies {
                &&& #[trigger] self.pix(x, y).channel_seq().len() == old(self).pix(
                    x,
                    y,
                ).channel_seq().len()
                &&& self.pix(x, y).channel_seq()[T::spec_alpha_index() as int].as_int()
                    == T::Subpixel::spec_max()
                &&& forall|c: int|
                    0 <= c < old(self).pix(x, y).channel_seq().len() && c
                        != T::spec_alpha_index() ==> #[trigger] self.pix(x, y).channel_seq()[c]
                        == old(self).pix(x, y).channel_seq()[c]
            } by {
                old(self).pix(x, y).lemma_channel_count();
            }
        }
    }
}

impl Image<Binary> {
    /// Boolean inversion of every cell, in place; each cell ends up 0 or 1.
    pub fn invert(&mut self)
        requires
            old(self).wf(),
        ensures
            final(self).wf(),
            final(self).w == old(self).w,
            final(self).h == old(self).h,
            final(self).stride == old(self).stride,
            forall|x: int, y: int|
                final(self).in_bounds(x, y) ==> #[trigger] final(self).pix(x, y).data@[0] == (
                if crate::pixel::bit_set(old(self).pix(x, y)) {
                    0u8
                } else {
                    1u8
                }),
    {
        let len = self.data.len();
        let mut k: usize = 0;
        while k < len
            invariant
                k <= len,
                self.data@.len() == len,
                self.w == old(self).w,
                self.h == old(self).h,
                self.stride == old(self).stride,
                forall|j: int|
                    0 <= j < k ==> #[trigger] self.data@[j].data@[0] == (if crate::pixel::bit_set(
                        old(self).data@[j],
                    ) {
                        0u8
                    } else {
                        1u8
                    }),
                forall|j: int| k <= j < len ==> #[trigger] self.data@[j] == old(self).data@[j],
            decreases len - k,
        {
            let p = self.data[k];
            self.data[k] = p.invert();
            k += 1;
        }
        proof {
            assert forall|x: int, y: int| final(self).in_bounds(x, y) implies #[trigger] final(self).pix(x, y).data@[0] == (if crate::pixel::bit_set(old(self).pix(x, y)) {
                0u8
            } else {
                1u8
            }) by {
                lemma_grid_index(self.stride as int, self.h as int, x, y);
            }
        }
    }

    /// Boolean inversion, consuming the image and returning the result.
    pub fn not(self) -> (r: Image<Binary>)
        requires
            self.wf(),
        ensures
            r.wf(),
            r.w == self.w,
            r.h == self.h,
            r.stride == self.stride,
            forall|x: int, y: int|
                r.in_bounds(x, y) ==> #[trigger] r.pix(x, y).data@[0] == (if crate::pixel::bit_set(
                    self.pix(x, y),
                ) {
                    0u8
                } else {
                    1u8
                }),
    {
        let mut out = self;
        out.invert();
        out
    }

    /// Per-cell boolean conjunction of two images of equal dimensions;
    /// every result cell is 0 or 1.
    pub fn and(self, rhs: Image<Binary>) -> (r: Image<Binary>)
        requires
            self.wf(),
            rhs.wf(),
            self.w == rhs.w,
            self.h == rhs.h,
        ensures
            r.wf(),
            r.w == self.w,
            r.h == self.h,
            r.stride == self.stride,
            forall|x: int, y: int|
                r.in_bounds(x, y) ==> #[trigger] r.pix(x, y).data@[0] == (if crate::pixel::bit_set(
                    self.pix(x, y),
                ) && crate::pixel::bit_set(rhs.pix(x, y)) {
                    1u8
                } else {
                    0u8
                }),
    {
        let mut out = self;
        let len = out.data.len();
        let mut k: usize = 0;
        while k < len
            invariant
                k <= len,
                out.data@.len() == len,
                rhs.data@.len() == len,
                out.w == self.w,
                out.h == self.h,
                out.stride == self.stride,
                forall|j: int|
                    0 <= j < k ==> #[trigger] out.data@[j].data@[0] == (if crate::pixel::bit_set(
                        self.data@[j],
                    ) && crate::pixel::bit_set(rhs.data@[j]) {
                        1u8
                    } else {
                        0u8
                    }),
                forall|j: int| k <= j < len ==> #[trigger] out.data@[j] == self.data@[j],
            decreases len - k,
        {
            let p = out.data[k];
            out.data[k] = p.and(rhs.data[k]);
            k += 1;
        }
        proof {
            assert forall|x: int, y: int| out.in_bounds(x, y) implies #[trigger] out.pix(
                x,
                y,
            ).data@[0] == (if crate::pixel::bit_set(self.pix(x, y)) && crate::pixel::bit_set(
                rhs.pix(x, y),
            ) {
                1u8
            } else {
                0u8
            }) by {
                lemma_grid_index(out.stride as int, out.h as int, x, y);
            }
        }
        out
    }

    /// Per-cell boolean disjunction of two images of equal dimensions;
    /// every result cell is 0 or 1.
    pub fn or(self, rhs: Image<Binary>) -> (r: Image<Binary>)
        requires
            self.wf(),
            rhs.wf(),
            self.w == rhs.w,
            self.h == rhs.h,
        ensures
            r.wf(),
            r.w == self.w,
            r.h == self.h,
            r.stride == self.stride,
            forall|x: int, y: int|
                r.in_bounds(x, y) ==> #[trigger] r.pix(x, y).data@[0] == (if crate::pixel::bit_set(
                    self.pix(x, y),
                ) || crate::pixel::bit_set(rhs.pix(x, y)) {
                    1u8
                } else {
                    0u8
                }),
    {
        let mut out = self;
        let len = out.data.len();
        let mut k: usize = 0;
        while k < len
            invariant
                k <= len,
                out.data@.len() == len,
                rhs.data@.len() == len,
                out.w == self.w,
                out.h == self.h,
                out.stride == self.stride,
                forall|j: int|
                    0 <= j < k ==> #[trigger] out.data@[j].data@[0] == (if crate::pixel::bit_set(
                        self.data@[j],
                    ) || crate::pixel::bit_set(rhs.data@[j]) {
                        1u8
                    } else {
                        0u8
                    }),
                forall|j: int| k <= j < len ==> #[trigger] out.data@[j] == self.data@[j],
            decreases len - k,
        {
            let p = out.data[k];
            out.data[k] = p.or(rhs.data[k]);
            k += 1;
        }
        proof {
            assert forall|x: int, y: int| out.in_bounds(x, y) implies #[trigger] out.pix(
                x,
                y,
            ).data@[0] == (if crate::pixel::bit_set(self.pix(x, y)) || crate::pixel::bit_set(
                rhs.pix(x, y),
            ) {
                1u8
            } else {
                0u8
            }) by {
                lemma_grid_index(out.stride as int, out.h as int, x, y);
            }
        }
        out
    }

    /// Per-cell boolean exclusive-or of two images of equal dimensions;
    /// every result cell is 0 or 1.
    pub fn xor(self, rhs: Image<Binary>) -> (r: Image<Binary>)
        requires
            self.wf(),
            rhs.wf(),
            self.w == rhs.w,
            self.h == rhs.h,
        ensures
            r.wf(),
            r.w == self.w,
            r.h == self.h,
            r.stride == self.stride,
            forall|x: int, y: int|
                r.in_bounds(x, y) ==> #[trigger] r.pix(x, y).data@[0] == (if crate::pixel::bit_set(
                    self.pix(x, y),
                ) != crate::pixel::bit_set(rhs.pix(x, y)) {
                    1u8
                } else {
                    0u8
                }),
    {
        let mut out = self;
        let len = out.data.len();
        let mut k: usize = 0;
        while k < len
            invariant
                k <= len,
                out.data@.len() == len,
                rhs.data@.len() == len,
                out.w == self.w,
                out.h == self.h,
                out.stride == self.stride,
                forall|j: int|
                    0 <= j < k ==> #[trigger] out.data@[j].data@[0] == (if crate::pixel::bit_set(
                        self.data@[j],
                    ) != crate::pixel::bit_set(rhs.data@[j]) {
                        1u8
                    } else {
                        0u8
                    }),
                forall|j: int| k <= j < len ==> #[trigger] out.data@[j] == self.data@[j],
            decreases len - k,
        {
            let p = out.data[k];
            out.data[k] = p.xor(rhs.data[k]);
            k += 1;
        }
        proof {
            assert forall|x: int, y: int| out.in_bounds(x, y) implies #[trigger] out.pix(
                x,
                y,
            ).data@[0] == (if crate::pixel::bit_set(self.pix(x, y)) != crate::pixel::bit_set(
                rhs.pix(x, y),
            ) {
                1u8
            } else {
                0u8
            }) by {
                lemma_grid_index(out.stride as int, out.h as int, x, y);
            }
        }
        out
    }

    /// In-place variant of `and`.
    pub fn and_assign(&mut self, rhs: Image<Binary>)
        requires
            old(self).wf(),
            rhs.wf(),
            old(self).w == rhs.w,
            old(self).h == rhs.h,
        ensures
            final(self).wf(),
            final(self).w == old(self).w,
            final(self).h == old(self).h,
            final(self).stride == old(self).stride,
            forall|x: int, y: int|
                final(self).in_bounds(x, y) ==> #[trigger] final(self).pix(x, y).data@[0] == (
                if crate::pixel::bit_set(old(self).pix(x, y)) && crate::pixel::bit_set(
                    rhs.pix(x, y),
                ) {
                    1u8
                } else {
                    0u8
                }),
    {
        let len = self.data.len();
        let mut k: usize = 0;
        while k < len
            invariant
                k <= len,
                self.data@.len() == len,
                rhs.data@.len() == len,
                self.w == old(self).w,
                self.h == old(self).h,
                self.stride == old(self).stride,
                forall|j: int|
                    0 <= j < k ==> #[trigger] self.data@[j].data@[0] == (if crate::pixel::bit_set(
                        old(self).data@[j],
                    ) && crate::pixel::bit_set(rhs.data@[j]) {
                        1u8
                    } else {
                        0u8
                    }),
                forall|j: int| k <= j < len ==> #[trigger] self.data@[j] == old(self).data@[j],
            decreases len - k,
        {
            let p = self.data[k];
            self.data[k] = p.and(rhs.data[k]);
            k += 1;
        }
        proof {
            assert forall|x: int, y: int| final(self).in_bounds(x, y) implies #[trigger] final(self).pix(x, y).data@[0] == (if crate::pixel::bit_set(old(self).pix(x, y)) && crate::pixel::bit_set(rhs.pix(x, y)) {
                1u8
            } else {
                0u8
            }) by {
                lemma_grid_index(self.stride as int, self.h as int, x, y);
            }
        }
    }

    /// In-place variant of `or`.
    pub fn or_assign(&mut self, rhs: Image<Binary>)
        requires
            old(self).wf(),
            rhs.wf(),
            old(self).w == rhs.w,
            old(self).h == rhs.h,
        ensures
            final(self).wf(),
            final(self).w == old(self).w,
            final(self).h == old(self).h,
            final(self).stride == old(self).stride,
            forall|x: int, y: int|
                final(self).in_bounds(x, y) ==> #[trigger] final(self).pix(x, y).data@[0] == (
                if crate::pixel::bit_set(old(self).pix(x, y)) || crate::pixel::bit_set(
                    rhs.pix(x, y),
                ) {
                    1u8
                } else {
                    0u8
                }),
    {
        let len = self.data.len();
        let mut k: usize = 0;
        while k < len
            invariant
                k <= len,
                self.data@.len() == len,
                rhs.data@.len() == len,
                self.w == old(self).w,
                self.h == old(self).h,
                self.stride == old(self).stride,
                forall|j: int|
                    0 <= j < k ==> #[trigger] self.data@[j].data@[0] == (if crate::pixel::bit_set(
                        old(self).data@[j],
                    ) || crate::pixel::bit_set(rhs.data@[j]) {
                        1u8
                    } else {
                        0u8
                    }),
                forall|j: int| k <= j < len ==> #[trigger] self.data@[j] == old(self).data@[j],
            decreases len - k,
        {
            let p = self.data[k];
            self.data[k] = p.or(rhs.data[k]);
            k += 1;
        }
        proof {
            assert forall|x: int, y: int| final(self).in_bounds(x, y) implies #[trigger] final(self).pix(x, y).data@[0] == (if crate::pixel::bit_set(old(self).pix(x, y)) || crate::pixel::bit_set(rhs.pix(x, y)) {
                1u8
            } else {
                0u8
            }) by {
                lemma_grid_index(self.stride as int, self.h as int, x, y);
            }
        }
    }

    /// In-place variant of `xor`.
    pub fn xor_assign(&mut self, rhs: Image<Binary>)
        requires
            old(self).wf(),
            rhs.wf(),
            old(self).w == rhs.w,
            old(self).h == rhs.h,
        ensures
            final(self).wf(),
            final(self).w == old(self).w,
            final(self).h == old(self).h,
            final(self).stride == old(self).stride,
            forall|x: int, y: int|
                final(self).in_bounds(x, y) ==> #[trigger] final(self).pix(x, y).data@[0] == (
                if crate::pixel::bit_set(old(self).pix(x, y)) != crate::pixel::bit_set(
                    rhs.pix(x, y),
                ) {
                    1u8
                } else {
                    0u8
                }),
    {
        let len = self.data.len();
        let mut k: usize = 0;
        while k < len
            invariant
                k <= len,
                self.data@.len() == len,
                rhs.data@.len() == len,
                self.w == old(self).w,
                self.h == old(self).h,
                self.stride == old(self).stride,
                forall|j: int|
                    0 <= j < k ==> #[trigger] self.data@[j].data@[0] == (if crate::pixel::bit_set(
                        old(self).data@[j],
                    ) != crate::pixel::bit_set(rhs.data@[j]) {
                        1u8
                    } else {
                        0u8
                    }),
                forall|j: int| k <= j < len ==> #[trigger] self.data@[j] == old(self).data@[j],
            decreases len - k,
        {
            let p = self.data[k];
            self.data[k] = p.xor(rhs.data[k]);
            k += 1;
        }
        proof {
            assert forall|x: int, y: int| final(self).in_bounds(x, y) implies #[trigger] final(self).pix(x, y).data@[0] == (if crate::pixel::bit_set(old(self).pix(x, y)) != crate::pixel::bit_set(rhs.pix(x, y)) {
                1u8
            } else {
                0u8
            }) by {
                lemma_grid_index(self.stride as int, self.h as int, x, y);
            }
        }
    }
}

/// Double-inversion law: on a bit-valued image (every cell 0 or 1),
/// inverting twice restores the original image cell for cell.
pub proof fn lemma_not_involutive(
    img: Image<Binary>,
    once: Image<Binary>,
    twice: Image<Binary>,
)
    requires
        img.wf(),
        once.wf(),
        twice.wf(),
        once.w == img.w,
        once.h == img.h,
        twice.w == img.w,
        twice.h == img.h,
        forall|x: int, y: int|
            img.in_bounds(x, y) ==> #[trigger] img.pix(x, y).data@[0] <= 1,
        forall|x: int, y: int|
            img.in_bounds(x, y) ==> #[trigger] once.pix(x, y).data@[0] == (
            if crate::pixel::bit_set(img.pix(x, y)) {
                0u8
            } else {
                1u8
            }),
        forall|x: int, y: int|
            img.in_bounds(x, y) ==> #[trigger] twice.pix(x, y).data@[0] == (
            if crate::pixel::bit_set(once.pix(x, y)) {
                0u8
            } else {
                1u8
            }),
    ensures
        forall|x: int, y: int|
            img.in_bounds(x, y) ==> #[trigger] twice.pix(x, y) == img.pix(x, y),
{
    broadcast use vstd::array::group_array_axioms;

    assert forall|x: int, y: int| img.in_bounds(x, y) implies #[trigger] twice.pix(x, y) == img.pix(
        x,
        y,
    ) by {
        assert(twice.pix(x, y).data@[0] == img.pix(x, y).data@[0]);
        assert(twice.pix(x, y).data@ =~= img.pix(x, y).data@);
        assert(twice.pix(x, y).data == img.pix(x, y).data);
    }
}

pub type ImageGray = Image<Gray<u8>>;

pub type ImageBGR = Image<BGR<u8>>;

pub type ImageBGRA = Image<BGRA<u8>>;

pub type ImageBinary = Image<Binary>;

} // verus!
