//! The Sobel edge detector: two fixed 3x3 gradient kernels applied by the
//! general convolution, combined per channel with saturating addition (an
//! approximation kept deliberately — not the gradient magnitude).

use vstd::prelude::*;
use crate::image::Image;
use crate::op::filter::{
    conv_cell_ok, conv_sum, convolve, kern_weight_fn, sample_extend, window_cell,
    window_sum_prefix, GeneralKernel, Kernel,
};
use crate::pixel::{clamp_int, saturating_add, Pixel, Primitive};

verus! {

/// The horizontal-gradient sum at `(x, y)`, channel `c`: the 3x3 kernel
/// `[-1, 0, 1; -2, 0, 2; -1, 0, 1]` over `Extend` samples.
pub open spec fn sobel_sum_x<P: Pixel>(img: Image<P>, x: int, y: int, c: int) -> int {
    sample_extend(img, x + 1, y - 1).channel_seq()[c].as_int() - sample_extend(
        img,
        x - 1,
        y - 1,
    ).channel_seq()[c].as_int() + 2 * sample_extend(img, x + 1, y).channel_seq()[c].as_int() - 2
        * sample_extend(img, x - 1, y).channel_seq()[c].as_int() + sample_extend(
        img,
        x + 1,
        y + 1,
    ).channel_seq()[c].as_int() - sample_extend(img, x - 1, y + 1).channel_seq()[c].as_int()
}

/// The vertical-gradient sum at `(x, y)`, channel `c`: the 3x3 kernel
/// `[-1, -2, -1; 0, 0, 0; 1, 2, 1]` over `Extend` samples.
pub open spec fn sobel_sum_y<P: Pixel>(img: Image<P>, x: int, y: int, c: int) -> int {
    sample_extend(img, x - 1, y + 1).channel_seq()[c].as_int() - sample_extend(
        img,
        x - 1,
        y - 1,
    ).channel_seq()[c].as_int() + 2 * sample_extend(img, x, y + 1).channel_seq()[c].as_int() - 2
        * sample_extend(img, x, y - 1).channel_seq()[c].as_int() + sample_extend(
        img,
        x + 1,
        y + 1,
    ).channel_seq()[c].as_int() - sample_extend(img, x + 1, y - 1).channel_seq()[c].as_int()
}

/// What the Sobel detector writes at `(x, y)`: per channel, the two clamped
/// gradient responses combined with saturating addition.
pub open spec fn sobel_cell_ok<P: Pixel>(img: Image<P>, out: Image<P>, x: int, y: int) -> bool {
    &&& out.pix(x, y).channel_seq().len() == P::spec_channels()
    &&& forall|c: int|
        0 <= c < P::spec_channels() ==> #[trigger] out.pix(x, y).channel_seq()[c].as_int()
            == clamp_int(
            clamp_int(sobel_sum_x(img, x, y, c), P::Subpixel::spec_min(), P::Subpixel::spec_max())
                + clamp_int(
                sobel_sum_y(img, x, y, c),
                P::Subpixel::spec_min(),
                P::Subpixel::spec_max(),
            ),
            P::Subpixel::spec_min(),
            P::Subpixel::spec_max(),
        )
}

/// A 3x3 kernel holding the horizontal-gradient weights sums, cell by cell,
/// to the explicit `sobel_sum_x` formula.
proof fn lemma_sobel_conv_x<K: Kernel, P: Pixel>(kern: K, img: Image<P>, x: int, y: int, c: int)
    requires
        kern.spec_width() == 3,
        kern.spec_height() == 3,
        kern.spec_weight(0, 0) == -1,
        kern.spec_weight(1, 0) == 0,
        kern.spec_weight(2, 0) == 1,
        kern.spec_weight(0, 1) == -2,
        kern.spec_weight(1, 1) == 0,
        kern.spec_weight(2, 1) == 2,
        kern.spec_weight(0, 2) == -1,
        kern.spec_weight(1, 2) == 0,
        kern.spec_weight(2, 2) == 1,
    ensures
        conv_sum(kern, img, x, y, c) == sobel_sum_x(img, x, y, c),
{
    let wt = kern_weight_fn(kern);
    reveal_with_fuel(window_sum_prefix, 10);
    assert(wt(0, 0) == -1 && wt(0, 1) == -2 && wt(0, 2) == -1 && wt(1, 0) == 0 && wt(1, 1) == 0
        && wt(1, 2) == 0 && wt(2, 0) == 1 && wt(2, 1) == 2 && wt(2, 2) == 1);
    assert(conv_sum(kern, img, x, y, c) == window_sum_prefix(img, x, y, c, 3, 3, wt, 9nat));
}

/// A 3x3 kernel holding the vertical-gradient weights sums, cell by cell, to
/// the explicit `sobel_sum_y` formula.
proof fn lemma_sobel_conv_y<K: Kernel, P: Pixel>(kern: K, img: Image<P>, x: int, y: int, c: int)
    requires
        kern.spec_width() == 3,
        kern.spec_height() == 3,
        kern.spec_weight(0, 0) == -1,
        kern.spec_weight(1, 0) == -2,
        kern.spec_weight(2, 0) == -1,
        kern.spec_weight(0, 1) == 0,
        kern.spec_weight(1, 1) == 0,
        kern.spec_weight(2, 1) == 0,
        kern.spec_weight(0, 2) == 1,
        kern.spec_weight(1, 2) == 2,
        kern.spec_weight(2, 2) == 1,
    ensures
        conv_sum(kern, img, x, y, c) == sobel_sum_y(img, x, y, c),
{
    let wt = kern_weight_fn(kern);
    reveal_with_fuel(window_sum_prefix, 10);
    assert(wt(0, 0) == -1 && wt(0, 1) == 0 && wt(0, 2) == 1 && wt(1, 0) == -2 && wt(1, 1) == 0
        && wt(1, 2) == 2 && wt(2, 0) == -1 && wt(2, 1) == 0 && wt(2, 2) == 1);
    assert(conv_sum(kern, img, x, y, c) == window_sum_prefix(img, x, y, c, 3, 3, wt, 9nat));
}

/// The Sobel edge detector.
#[derive(Debug, Clone, Copy, PartialEq, Eq)]
pub struct Sobel {}

impl Sobel {
    pub fn new() -> (r: Sobel)
        ensures
            r == (Sobel {  }),
    {
        Sobel {  }
    }

    /// Applies the detector: convolves with the horizontal and vertical
    /// gradient kernels and combines the two responses per channel with
    /// saturating addition.
    pub fn filter<P: Pixel>(&self, img: &Image<P>) -> (out: Image<P>)
        requires
            img.wf(),
            img.w + 4096 <= isize::MAX,
            img.h + 4096 <= isize::MAX,
        ensures
            out.wf(),
            out.w == img.w,
            out.h == img.h,
            forall|x: int, y: int|
                img.in_bounds(x, y) ==> #[trigger] sobel_cell_ok(*img, out, x, y),
    {
        let mut wx: Vec<i64> = Vec::new();
        wx.push(-1);
        wx.push(0);
        wx.push(1);
        wx.push(-2);
        wx.push(0);
        wx.push(2);
        wx.push(-1);
        wx.push(0);
        wx.push(1);
        let mut wy: Vec<i64> = Vec::new();
        wy.push(-1);
        wy.push(-2);
        wy.push(-1);
        wy.push(0);
        wy.push(0);
        wy.push(0);
        wy.push(1);
        wy.push(2);
        wy.push(1);
        let kern_x = match GeneralKernel::new(3, 3, wx.as_slice()) {
            Ok(k) => k,
            Err(_) => vstd::pervasive::unreached(),
        };
        let kern_y = match GeneralKernel::new(3, 3, wy.as_slice()) {
            Ok(k) => k,
            Err(_) => vstd::pervasive::unreached(),
        };
        proof {
            assert forall|k: int| 0 <= k < kern_x.data@.len() implies -crate::op::filter::MAX_WEIGHT
                <= #[trigger] kern_x.data@[k] <= crate::op::filter::MAX_WEIGHT by {}
            assert forall|k: int| 0 <= k < kern_y.data@.len() implies -crate::op::filter::MAX_WEIGHT
                <= #[trigger] kern_y.data@[k] <= crate::op::filter::MAX_WEIGHT by {}
            assert(kern_x.wf());
            assert(kern_y.wf());
        }
        let img_x = convolve(&kern_x, img);
        let img_y = convolve(&kern_y, img);
        let _buf_len = img.data.len();
        let mut out: Image<P> = Image::new(img.width(), img.height());
        let mut y: usize = 0;
        while y < img.height()
            invariant
                img.wf(),
                img_x.wf(),
                img_y.wf(),
                img_x.w == img.w,
                img_x.h == img.h,
                img_y.w == img.w,
                img_y.h == img.h,
                out.wf(),
                out.w == img.w,
                out.h == img.h,
                out.stride == img.w,
                y <= img.h,
                forall|a: int, b: int|
                    img.in_bounds(a, b) ==> #[trigger] conv_cell_ok(kern_x, *img, img_x, a, b),
                forall|a: int, b: int|
                    img.in_bounds(a, b) ==> #[trigger] conv_cell_ok(kern_y, *img, img_y, a, b),
                kern_x.spec_width() == 3,
                kern_x.spec_height() == 3,
                kern_x.data@ =~= wx@,
                kern_y.spec_width() == 3,
                kern_y.spec_height() == 3,
                kern_y.data@ =~= wy@,
                wx@.len() == 9,
                wy@.len() == 9,
                wx@[0] == -1i64 && wx@[1] == 0i64 && wx@[2] == 1i64 && wx@[3] == -2i64 && wx@[4]
                    == 0i64 && wx@[5] == 2i64 && wx@[6] == -1i64 && wx@[7] == 0i64 && wx@[8]
                    == 1i64,
                wy@[0] == -1i64 && wy@[1] == -2i64 && wy@[2] == -1i64 && wy@[3] == 0i64 && wy@[4]
                    == 0i64 && wy@[5] == 0i64 && wy@[6] == 1i64 && wy@[7] == 2i64 && wy@[8]
                    == 1i64,
                forall|a: int, b: int|
                    img.in_bounds(a, b) && b < y ==> #[trigger] sobel_cell_ok(*img, out, a, b),
            decreases img.h - y,
        {
            let mut x: usize = 0;
            while x < img.width()
                invariant
                    img.wf(),
                    img_x.wf(),
                    img_y.wf(),
                    img_x.w == img.w,
                    img_x.h == img.h,
                    img_y.w == img.w,
                    img_y.h == img.h,
                    out.wf(),
                    out.w == img.w,
                    out.h == img.h,
                    out.stride == img.w,
                    y < img.h,
                    x <= img.w,
                    forall|a: int, b: int|
                        img.in_bounds(a, b) ==> #[trigger] conv_cell_ok(kern_x, *img, img_x, a, b),
                    forall|a: int, b: int|
                        img.in_bounds(a, b) ==> #[trigger] conv_cell_ok(kern_y, *img, img_y, a, b),
                    kern_x.spec_width() == 3,
                    kern_x.spec_height() == 3,
                    kern_x.data@ =~= wx@,
                    kern_y.spec_width() == 3,
                    kern_y.spec_height() == 3,
                    kern_y.data@ =~= wy@,
                    wx@.len() == 9,
                    wy@.len() == 9,
                    wx@[0] == -1i64 && wx@[1] == 0i64 && wx@[2] == 1i64 && wx@[3] == -2i64 && wx@[4]
                        == 0i64 && wx@[5] == 2i64 && wx@[6] == -1i64 && wx@[7] == 0i64 && wx@[8]
                        == 1i64,
                    wy@[0] == -1i64 && wy@[1] == -2i64 && wy@[2] == -1i64 && wy@[3] == 0i64
                        && wy@[4] == 0i64 && wy@[5] == 0i64 && wy@[6] == 1i64 && wy@[7] == 2i64
                        && wy@[8] == 1i64,
                    forall|a: int, b: int|
                        img.in_bounds(a, b) && (b < y || (b == y && a < x))
                            ==> #[trigger] sobel_cell_ok(*img, out, a, b),
                decreases img.w - x,
            {
                let px = img_x.get(x, y);
                let py = img_y.get(x, y);
                let p = saturating_add::<P>(px, py);
                let ghost out_prev = out;
                out.put(x, y, p);
                proof {
                    assert(conv_cell_ok(kern_x, *img, img_x, x as int, y as int));
                    assert(conv_cell_ok(kern_y, *img, img_y, x as int, y as int));
                    assert forall|c: int| 0 <= c < P::spec_channels() implies #[trigger] p.channel_seq()[c].as_int()
                        == clamp_int(
                        clamp_int(
                            sobel_sum_x(*img, x as int, y as int, c),
                            P::Subpixel::spec_min(),
                            P::Subpixel::spec_max(),
                        ) + clamp_int(
                            sobel_sum_y(*img, x as int, y as int, c),
                            P::Subpixel::spec_min(),
                            P::Subpixel::spec_max(),
                        ),
                        P::Subpixel::spec_min(),
                        P::Subpixel::spec_max(),
                    ) by {
                        lemma_sobel_conv_x(kern_x, *img, x as int, y as int, c);
                        lemma_sobel_conv_y(kern_y, *img, x as int, y as int, c);
                        px.lemma_channel_count();
                        py.lemma_channel_count();
                        px.channel_seq()[c].lemma_bounds();
                        py.channel_seq()[c].lemma_bounds();
                    }
                    assert forall|a: int, b: int|
                        img.in_bounds(a, b) && (b < y || (b == y && a <= x))
                            implies #[trigger] sobel_cell_ok(*img, out, a, b) by {
                        if a == x && b == y {
                            assert(out.pix(a, b) == p);
                        } else {
                            assert(out.pix(a, b) == out_prev.pix(a, b));
                            assert(sobel_cell_ok(*img, out_prev, a, b));
                        }
                    }
                }
                x += 1;
            }
            y += 1;
        }
        out
    }
}

} // verus!
