//! Blur filters: the box mean over an `Extend`-sampled window, and the
//! per-channel median over the in-image part of the window.

use vstd::prelude::*;
use crate::image::{Image, ImageError};
use crate::op::filter::{sample_extend, window_cell, window_sum_prefix, MAX_KERNEL_CELLS};
use crate::pixel::{lemma_value_leq_total_ordering, value_leq, Pixel, Primitive};

verus! {

/// Unit weights: the box window weighs every sample equally.
pub open spec fn ones_fn() -> spec_fn(int, int) -> int {
    |i: int, j: int| 1
}

/// Sum of the `Extend`-sampled window of size `fw` by `fh` centered on
/// `(x, y)`, channel `c`.
pub open spec fn box_sum<P: Pixel>(
    img: Image<P>,
    fw: int,
    fh: int,
    x: int,
    y: int,
    c: int,
) -> int {
    window_sum_prefix(img, x, y, c, fw, fh, ones_fn(), (fw * fh) as nat)
}

/// What the box filter writes at `(x, y)`: every channel is the unweighted
/// window mean, the window sum divided by the cell count.
pub open spec fn box_cell_ok<P: Pixel>(
    img: Image<P>,
    out: Image<P>,
    fw: int,
    fh: int,
    x: int,
    y: int,
) -> bool {
    &&& out.pix(x, y).channel_seq().len() == P::spec_channels()
    &&& forall|c: int|
        0 <= c < P::spec_channels() ==> #[trigger] out.pix(x, y).channel_seq()[c].as_int()
            == box_sum(img, fw, fh, x, y, c) / (fw * fh)
}

/// A unit-weight window prefix of `n` samples lies between `n` times the
/// smallest and `n` times the largest subpixel value.
pub proof fn lemma_box_prefix_range<P: Pixel>(
    img: Image<P>,
    x: int,
    y: int,
    c: int,
    fw: int,
    fh: int,
    n: nat,
)
    requires
        fw >= 1,
        fh >= 1,
        0 <= c < P::spec_channels(),
        n <= fw * fh,
    ensures
        (n as int) * P::Subpixel::spec_min() <= window_sum_prefix(
            img,
            x,
            y,
            c,
            fw,
            fh,
            ones_fn(),
            n,
        ) <= (n as int) * P::Subpixel::spec_max(),
        n >= 1 ==> 0 <= P::Subpixel::spec_min() && P::Subpixel::spec_max() <= 0x100_0000,
    decreases n,
{
    if n > 0 {
        lemma_box_prefix_range(img, x, y, c, fw, fh, (n - 1) as nat);
        let k = n - 1;
        assert(0 <= k / fh < fw && 0 <= k % fh < fh) by (nonlinear_arith)
            requires
                0 <= k < fw * fh,
                fh >= 1,
        ;
        let p = sample_extend(img, x + k / fh - fw / 2, y + k % fh - fh / 2);
        p.lemma_channel_count();
        let v = p.channel_seq()[c];
        v.lemma_bounds();
        let one = ones_fn();
        assert(one(k / fh, k % fh) == 1);
        assert(window_cell(img, x, y, c, fw, fh, ones_fn(), k) == v.as_int());
        assert((n as int) * P::Subpixel::spec_min() == ((n - 1) as int) * P::Subpixel::spec_min()
            + P::Subpixel::spec_min()) by (nonlinear_arith);
        assert((n as int) * P::Subpixel::spec_max() == ((n - 1) as int) * P::Subpixel::spec_max()
            + P::Subpixel::spec_max()) by (nonlinear_arith);
    }
}

/// On an image whose channel `c` is constant, every unit-weight window
/// prefix sums to the sample count times that constant.
pub proof fn lemma_box_prefix_constant<P: Pixel>(
    img: Image<P>,
    fw: int,
    fh: int,
    x: int,
    y: int,
    c: int,
    v: int,
    n: nat,
)
    requires
        img.wf(),
        img.w >= 1,
        img.h >= 1,
        fw >= 1,
        fh >= 1,
        0 <= c < P::spec_channels(),
        n <= fw * fh,
        forall|a: int, b: int|
            img.in_bounds(a, b) ==> #[trigger] img.pix(a, b).channel_seq()[c].as_int() == v,
    ensures
        window_sum_prefix(img, x, y, c, fw, fh, ones_fn(), n) == (n as int) * v,
    decreases n,
{
    if n == 0 {
        assert((0int) * v == 0) by (nonlinear_arith);
    } else {
        lemma_box_prefix_constant(img, fw, fh, x, y, c, v, (n - 1) as nat);
        let k = n - 1;
        assert(0 <= k / fh < fw && 0 <= k % fh < fh) by (nonlinear_arith)
            requires
                0 <= k < fw * fh,
                fh >= 1,
        ;
        let cx = x + k / fh - fw / 2;
        let cy = y + k % fh - fh / 2;
        let ex = crate::eye::extend_coord(cx, img.w as int);
        let ey = crate::eye::extend_coord(cy, img.h as int);
        assert(img.in_bounds(ex, ey));
        let one = ones_fn();
        assert(one(k / fh, k % fh) == 1);
        assert(window_cell(img, x, y, c, fw, fh, ones_fn(), k) == v);
        assert((n as int) * v == ((n - 1) as int) * v + v) by (nonlinear_arith);
    }
}

/// Constant-image law: the box filter leaves a constant-valued image
/// unchanged — on an image whose every cell equals `p`, every output channel
/// is again the matching channel of `p`.
pub proof fn lemma_box_filter_constant<P: Pixel>(
    img: Image<P>,
    out: Image<P>,
    fw: int,
    fh: int,
    p: P,
)
    requires
        img.wf(),
        out.wf(),
        out.w == img.w,
        out.h == img.h,
        fw >= 1,
        fh >= 1,
        forall|a: int, b: int| img.in_bounds(a, b) ==> #[trigger] img.pix(a, b) == p,
        forall|a: int, b: int|
            img.in_bounds(a, b) ==> #[trigger] box_cell_ok(img, out, fw, fh, a, b),
    ensures
        forall|a: int, b: int|
            img.in_bounds(a, b) ==> #[trigger] out.pix(a, b).channel_seq() == p.channel_seq(),
{
    assert forall|a: int, b: int| img.in_bounds(a, b) implies #[trigger] out.pix(
        a,
        b,
    ).channel_seq() == p.channel_seq() by {
        assert(box_cell_ok(img, out, fw, fh, a, b));
        p.lemma_channel_count();
        assert forall|c: int| 0 <= c < P::spec_channels() implies out.pix(a, b).channel_seq()[c]
            == p.channel_seq()[c] by {
            let v = p.channel_seq()[c].as_int();
            assert forall|a2: int, b2: int| img.in_bounds(a2, b2) implies #[trigger] img.pix(
                a2,
                b2,
            ).channel_seq()[c].as_int() == v by {
                assert(img.pix(a2, b2) == p);
            }
            lemma_box_prefix_constant(img, fw, fh, a, b, c, v, (fw * fh) as nat);
            p.channel_seq()[c].lemma_bounds();
            assert(box_sum(img, fw, fh, a, b, c) == ((fw * fh) as int) * v);
            assert((((fw * fh) as int) * v) / ((fw * fh) as int) == v) by (nonlinear_arith)
                requires
                    fw >= 1,
                    fh >= 1,
                    0 <= v,
            ;
            P::Subpixel::lemma_injective(out.pix(a, b).channel_seq()[c], p.channel_seq()[c]);
        }
        assert(out.pix(a, b).channel_seq() =~= p.channel_seq());
    }
}

/// The box filter: every output cell is the unweighted mean of an odd-sized
/// window around it, sampled with the `Extend` boundary policy.
#[derive(Debug, PartialEq, Eq, Clone, Copy)]
pub struct BoxFilter {
    pub width: usize,
    pub height: usize,
}

impl BoxFilter {
    /// Builds the filter; both window dimensions must be odd.
    pub fn new(width: usize, height: usize) -> (r: Result<BoxFilter, ImageError>)
        ensures
            (width % 2 == 1 && height % 2 == 1) <==> r is Ok,
            r matches Ok(f) ==> f.width == width && f.height == height,
    {
        if width % 2 != 1 || height % 2 != 1 {
            return Err(ImageError::InvalidImage);
        }
        Ok(BoxFilter { width, height })
    }

    /// Applies the filter: a fresh image of the input's dimensions where
    /// every cell is the window mean around the matching input cell.
    pub fn filter<P: Pixel>(&self, img: &Image<P>) -> (out: Image<P>)
        requires
            self.width % 2 == 1,
            self.height % 2 == 1,
            self.width * self.height <= MAX_KERNEL_CELLS,
            img.wf(),
            img.w + 4096 <= isize::MAX,
            img.h + 4096 <= isize::MAX,
        ensures
            out.wf(),
            out.w == img.w,
            out.h == img.h,
            forall|x: int, y: int|
                img.in_bounds(x, y) ==> #[trigger] box_cell_ok(
                    *img,
                    out,
                    self.width as int,
                    self.height as int,
                    x,
                    y,
                ),
    {
        let _buf_len = img.data.len();
        let mut out: Image<P> = Image::new(img.width(), img.height());
        let mut y: usize = 0;
        while y < img.height()
            invariant
                self.width % 2 == 1,
                self.height % 2 == 1,
                self.width * self.height <= MAX_KERNEL_CELLS,
                img.wf(),
                img.w + 4096 <= isize::MAX,
                img.h + 4096 <= isize::MAX,
                out.wf(),
                out.w == img.w,
                out.h == img.h,
                out.stride == img.w,
                y <= img.h,
                forall|a: int, b: int|
                    img.in_bounds(a, b) && b < y ==> #[trigger] box_cell_ok(
                        *img,
                        out,
                        self.width as int,
                        self.height as int,
                        a,
                        b,
                    ),
            decreases img.h - y,
        {
            let mut x: usize = 0;
            while x < img.width()
                invariant
                    self.width % 2 == 1,
                    self.height % 2 == 1,
                    self.width * self.height <= MAX_KERNEL_CELLS,
                    img.wf(),
                    img.w + 4096 <= isize::MAX,
                    img.h + 4096 <= isize::MAX,
                    out.wf(),
                    out.w == img.w,
                    out.h == img.h,
                    out.stride == img.w,
                    y < img.h,
                    x <= img.w,
                    forall|a: int, b: int|
                        img.in_bounds(a, b) && (b < y || (b == y && a < x))
                            ==> #[trigger] box_cell_ok(
                            *img,
                            out,
                            self.width as int,
                            self.height as int,
                            a,
                            b,
                        ),
                decreases img.w - x,
            {
                let p = box_filter_calc_one(self, x, y, img);
                let ghost out_prev = out;
                out.put(x, y, p);
                proof {
                    assert forall|a: int, b: int|
                        img.in_bounds(a, b) && (b < y || (b == y && a <= x))
                            implies #[trigger] box_cell_ok(
                        *img,
                        out,
                        self.width as int,
                        self.height as int,
                        a,
                        b,
                    ) by {
                        if a == x && b == y {
                            assert(out.pix(a, b) == p);
                        } else {
                            assert(out.pix(a, b) == out_prev.pix(a, b));
                            assert(box_cell_ok(
                                *img,
                                out_prev,
                                self.width as int,
                                self.height as int,
                                a,
                                b,
                            ));
                        }
                    }
                }
                x += 1;
            }
            y += 1;
        }
        out
    }
}

/// Computes one output cell of the box filter: per channel, the sum of the
/// `Extend`-sampled window divided by the window cell count.
#[verifier::rlimit(60)]
fn box_filter_calc_one<P: Pixel>(filter: &BoxFilter, x: usize, y: usize, img: &Image<P>) -> (r: P)
    requires
        filter.width % 2 == 1,
        filter.height % 2 == 1,
        filter.width * filter.height <= MAX_KERNEL_CELLS,
        img.wf(),
        x < img.w,
        y < img.h,
        img.w + 4096 <= isize::MAX,
        img.h + 4096 <= isize::MAX,
    ensures
        r.channel_seq().len() == P::spec_channels(),
        forall|c: int|
            0 <= c < P::spec_channels() ==> #[trigger] r.channel_seq()[c].as_int() == box_sum(
                *img,
                filter.width as int,
                filter.height as int,
                x as int,
                y as int,
                c,
            ) / ((filter.width * filter.height) as int),
{
    let fw = filter.width;
    let fh = filter.height;
    let size = fw * fh;
    let half_x = fw / 2;
    let half_y = fh / 2;
    let sx = x as isize - half_x as isize;
    let sy = y as isize - half_y as isize;
    let ghost one = ones_fn();
    let channels = P::channels();
    proof {
        assert(1 <= fw * fh && fw <= fw * fh && fh <= fw * fh) by (nonlinear_arith)
            requires
                fw >= 1,
                fh >= 1,
        ;
    }
    let mut r = P::zero();
    proof {
        r.lemma_channel_count();
    }
    let mut c: usize = 0;
    while c < channels
        invariant
            filter.width % 2 == 1,
            filter.height % 2 == 1,
            fw == filter.width,
            fh == filter.height,
            size == fw * fh,
            1 <= fw,
            1 <= fh,
            size <= MAX_KERNEL_CELLS,
            1 <= size,
            fw <= MAX_KERNEL_CELLS,
            fh <= MAX_KERNEL_CELLS,
            img.wf(),
            x < img.w,
            y < img.h,
            img.w + 4096 <= isize::MAX,
            img.h + 4096 <= isize::MAX,
            half_x == fw / 2,
            half_y == fh / 2,
            sx as int == x - half_x,
            sy as int == y - half_y,
            one == ones_fn(),
            channels == P::spec_channels(),
            r.channel_seq().len() == channels,
            c <= channels,
            forall|cc: int|
                0 <= cc < c ==> #[trigger] r.channel_seq()[cc].as_int() == box_sum(
                    *img,
                    fw as int,
                    fh as int,
                    x as int,
                    y as int,
                    cc,
                ) / (size as int),
        decreases channels - c,
    {
        let mut acc: i64 = 0;
        let mut i: usize = 0;
        while i < fw
            invariant
                fw == filter.width,
                fh == filter.height,
                size == fw * fh,
                1 <= fw,
                1 <= fh,
                size <= MAX_KERNEL_CELLS,
                1 <= size,
                fw <= MAX_KERNEL_CELLS,
                fh <= MAX_KERNEL_CELLS,
                img.wf(),
                x < img.w,
                y < img.h,
                img.w + 4096 <= isize::MAX,
                img.h + 4096 <= isize::MAX,
                half_x == fw / 2,
                half_y == fh / 2,
                sx as int == x - half_x,
                sy as int == y - half_y,
                one == ones_fn(),
                channels == P::spec_channels(),
                c < channels,
                i <= fw,
                i * fh <= fw * fh,
                acc as int == window_sum_prefix(
                    *img,
                    x as int,
                    y as int,
                    c as int,
                    fw as int,
                    fh as int,
                    one,
                    (i * fh) as nat,
                ),
            decreases fw - i,
        {
            proof {
                assert(i * fh + fh == (i + 1) * fh <= fw * fh) by (nonlinear_arith)
                    requires
                        i + 1 <= fw,
                        fh >= 1,
                ;
            }
            let mut j: usize = 0;
            while j < fh
                invariant
                    fw == filter.width,
                    fh == filter.height,
                    size == fw * fh,
                    1 <= fw,
                    1 <= fh,
                    size <= MAX_KERNEL_CELLS,
                    1 <= size,
                    fw <= MAX_KERNEL_CELLS,
                    fh <= MAX_KERNEL_CELLS,
                    img.wf(),
                    x < img.w,
                    y < img.h,
                    img.w + 4096 <= isize::MAX,
                    img.h + 4096 <= isize::MAX,
                    half_x == fw / 2,
                    half_y == fh / 2,
                    sx as int == x - half_x,
                    sy as int == y - half_y,
                    one == ones_fn(),
                    channels == P::spec_channels(),
                    c < channels,
                    i < fw,
                    j <= fh,
                    i * fh + fh <= fw * fh,
                    acc as int == window_sum_prefix(
                        *img,
                        x as int,
                        y as int,
                        c as int,
                        fw as int,
                        fh as int,
                        one,
                        (i * fh + j) as nat,
                    ),
                decreases fh - j,
            {
                let ix = sx + i as isize;
                let iy = sy + j as isize;
                let eye = crate::eye::Eye::<P>::new(ix, iy);
                let a = eye.look(img);
                proof {
                    assert(a == sample_extend(*img, ix as int, iy as int));
                }
                let v = a.channel(c);
                let vi = v.to_i64();
                let ghost n = (i * fh + j) as nat;
                proof {
                    crate::image::lemma_grid_offset(fh as int, j as int, i as int);
                    assert((i as int) * (fh as int) + (j as int) >= 0) by (nonlinear_arith)
                        requires
                            i >= 0,
                            j >= 0,
                            fh >= 1,
                    ;
                    assert(n as int == (i as int) * (fh as int) + (j as int));
                    assert(n as int == (fh as int) * (i as int) + (j as int)) by (nonlinear_arith)
                        requires
                            n as int == (i as int) * (fh as int) + (j as int),
                    ;
                    assert((n as int) / (fh as int) == i as int);
                    assert((n as int) % (fh as int) == j as int);
                    assert(n < fw * fh);
                    a.lemma_channel_count();
                    v.lemma_bounds();
                    lemma_box_prefix_range(
                        *img,
                        x as int,
                        y as int,
                        c as int,
                        fw as int,
                        fh as int,
                        n,
                    );
                    assert((n as int) * P::Subpixel::spec_max() <= 4096 * 0x100_0000)
                        by (nonlinear_arith)
                        requires
                            n <= 4096,
                            0 <= P::Subpixel::spec_max() <= 0x100_0000,
                    ;
                    assert((n as int) * P::Subpixel::spec_min() >= 0) by (nonlinear_arith)
                        requires
                            0 <= P::Subpixel::spec_min(),
                    ;
                    assert(one(n as int / (fh as int), (n as int) % (fh as int)) == 1);
                    assert(window_cell(
                        *img,
                        x as int,
                        y as int,
                        c as int,
                        fw as int,
                        fh as int,
                        one,
                        n as int,
                    ) == (vi as int));
                    assert(window_sum_prefix(
                        *img,
                        x as int,
                        y as int,
                        c as int,
                        fw as int,
                        fh as int,
                        one,
                        (n + 1) as nat,
                    ) == window_sum_prefix(
                        *img,
                        x as int,
                        y as int,
                        c as int,
                        fw as int,
                        fh as int,
                        one,
                        n,
                    ) + window_cell(
                        *img,
                        x as int,
                        y as int,
                        c as int,
                        fw as int,
                        fh as int,
                        one,
                        n as int,
                    ));
                }
                acc = acc + vi;
                j += 1;
            }
            i += 1;
            proof {
                assert(i * fh == (i - 1) * fh + fh) by (nonlinear_arith);
            }
        }
        proof {
            lemma_box_prefix_range(
                *img,
                x as int,
                y as int,
                c as int,
                fw as int,
                fh as int,
                (fw * fh) as nat,
            );
            assert(((fw * fh) as int) * P::Subpixel::spec_min() >= 0) by (nonlinear_arith)
                requires
                    0 <= P::Subpixel::spec_min(),
            ;
            assert(P::Subpixel::spec_min() <= (acc as int) / (size as int) <= P::Subpixel::spec_max())
                by (nonlinear_arith)
                requires
                    size as int == (fw * fh) as int,
                    size >= 1,
                    ((fw * fh) as int) * P::Subpixel::spec_min() <= acc as int <= ((fw * fh) as int)
                        * P::Subpixel::spec_max(),
                    0 <= P::Subpixel::spec_min(),
                    P::Subpixel::spec_max() <= 0x100_0000,
            ;
            assert(acc >= 0);
        }
        let q: u64 = (acc as u64) / (size as u64);
        proof {
            assert(q as int == (acc as int) / (size as int));
        }
        let vr = P::Subpixel::from_i64(q as i64);
        r.set_channel(c, vr);
        c += 1;
    }
    r
}

/// The first `n` scanned cells of the median window: column-by-column, only
/// cells strictly inside the image contribute (no boundary extension).
pub open spec fn median_window_prefix<P: Pixel>(
    img: Image<P>,
    fw: int,
    fh: int,
    x: int,
    y: int,
    c: int,
    n: nat,
) -> Seq<P::Subpixel>
    decreases n,
{
    if n == 0 {
        Seq::empty()
    } else {
        let prev = median_window_prefix(img, fw, fh, x, y, c, (n - 1) as nat);
        let k = n - 1;
        let cx = x - fw / 2 + k / fh;
        let cy = y - fh / 2 + k % fh;
        if img.in_bounds(cx, cy) {
            prev.push(img.pix(cx, cy).channel_seq()[c])
        } else {
            prev
        }
    }
}

/// The channel-`c` values of the window cells that lie inside the image, in
/// scan order.
pub open spec fn median_window<P: Pixel>(
    img: Image<P>,
    fw: int,
    fh: int,
    x: int,
    y: int,
    c: int,
) -> Seq<P::Subpixel> {
    median_window_prefix(img, fw, fh, x, y, c, (fw * fh) as nat)
}

/// The per-channel median: the element at index `count / 2` of the sorted
/// in-image window values.
pub open spec fn median_value<P: Pixel>(
    img: Image<P>,
    fw: int,
    fh: int,
    x: int,
    y: int,
    c: int,
) -> P::Subpixel {
    let w = median_window(img, fw, fh, x, y, c);
    w.sort_by(value_leq::<P::Subpixel>())[w.len() as int / 2]
}

/// What the median filter writes at `(x, y)`: every channel independently
/// takes the median of its in-image window values.
pub open spec fn median_cell_ok<P: Pixel>(
    img: Image<P>,
    out: Image<P>,
    fw: int,
    fh: int,
    x: int,
    y: int,
) -> bool {
    &&& out.pix(x, y).channel_seq().len() == P::spec_channels()
    &&& forall|c: int|
        0 <= c < P::spec_channels() ==> #[trigger] out.pix(x, y).channel_seq()[c] == median_value(
            img,
            fw,
            fh,
            x,
            y,
            c,
        )
}

/// Scanning more cells never shrinks the window, and once the scan has
/// passed the center cell — which is always inside the image — the window
/// holds at least one value.
proof fn lemma_median_prefix_nonempty<P: Pixel>(
    img: Image<P>,
    fw: int,
    fh: int,
    x: int,
    y: int,
    c: int,
    n: nat,
)
    requires
        img.wf(),
        fw >= 1,
        fh >= 1,
        img.in_bounds(x, y),
        n > (fw / 2) * fh + fh / 2,
    ensures
        median_window_prefix(img, fw, fh, x, y, c, n).len() >= 1,
    decreases n,
{
    let k0 = (fw / 2) * fh + fh / 2;
    if n == k0 + 1 {
        crate::image::lemma_grid_offset(fh, fh / 2, fw / 2);
        assert(k0 == fh * (fw / 2) + fh / 2) by (nonlinear_arith)
            requires
                k0 == (fw / 2) * fh + fh / 2,
        ;
        assert(k0 / fh == fw / 2 && k0 % fh == fh / 2);
        assert(x - fw / 2 + k0 / fh == x);
        assert(y - fh / 2 + k0 % fh == y);
    } else {
        lemma_median_prefix_nonempty(img, fw, fh, x, y, c, (n - 1) as nat);
    }
}

/// The median window of an in-bounds cell is never empty: the cell itself
/// always contributes.
pub proof fn lemma_median_window_nonempty<P: Pixel>(
    img: Image<P>,
    fw: int,
    fh: int,
    x: int,
    y: int,
    c: int,
)
    requires
        img.wf(),
        fw >= 1,
        fh >= 1,
        img.in_bounds(x, y),
    ensures
        median_window(img, fw, fh, x, y, c).len() >= 1,
{
    assert((fw / 2) * fh + fh / 2 < fw * fh) by (nonlinear_arith)
        requires
            fw >= 1,
            fh >= 1,
    ;
    lemma_median_prefix_nonempty(img, fw, fh, x, y, c, (fw * fh) as nat);
}

/// Sorts the values ascending by their integer interpretation (insertion
/// sort); the result is a permutation of the input.
fn sort_values<T: Primitive>(v: &mut Vec<T>)
    ensures
        vstd::relations::sorted_by(final(v)@, value_leq::<T>()),
        final(v)@.to_multiset() == old(v)@.to_multiset(),
        final(v)@.len() == old(v)@.len(),
{
    broadcast use vstd::seq_lib::group_to_multiset_ensures;
    broadcast use vstd::multiset::group_multiset_axioms;
    broadcast use vstd::multiset::group_multiset_properties;

    let len = v.len();
    let mut i: usize = 1;
    while i < len
        invariant
            v@.len() == len,
            len == old(v)@.len(),
            v@.to_multiset() == old(v)@.to_multiset(),
            forall|a: int, b: int|
                0 <= a < b < i && b < len ==> #[trigger] v@[a].as_int() <= #[trigger] v@[b].as_int(),
        decreases len - i,
    {
        let mut j: usize = i;
        while j > 0 && !v[j - 1].le(v[j])
            invariant
                v@.len() == len,
                len == old(v)@.len(),
                i < len,
                j <= i,
                v@.to_multiset() == old(v)@.to_multiset(),
                forall|a: int, b: int|
                    0 <= a < b <= i && b != j ==> #[trigger] v@[a].as_int() <= #[trigger] v@[b].as_int(),
                forall|b: int|
                    j < b <= i ==> v@[j as int].as_int() <= #[trigger] v@[b].as_int(),
            decreases j,
        {
            let ghost before = v@;
            let lo = v[j - 1];
            let hi = v[j];
            v[j - 1] = hi;
            v[j] = lo;
            proof {
                broadcast use vstd::seq_lib::group_to_multiset_ensures;
                broadcast use vstd::multiset::group_multiset_axioms;
                broadcast use vstd::multiset::group_multiset_properties;

                let mid = before.update(j - 1, hi);
                assert(v@ == mid.update(j as int, lo));
                assert(before[j - 1] == lo);
                assert(before.contains(lo));
                assert(mid[j as int] == hi);
                assert(mid.contains(hi));
                assert(mid.to_multiset() == before.to_multiset().insert(hi).remove(lo));
                assert(v@.to_multiset() == mid.to_multiset().insert(lo).remove(hi));
                assert forall|e: T| v@.to_multiset().count(e) == before.to_multiset().count(
                    e,
                ) by {
                    assert(before.to_multiset().count(lo) >= 1);
                }
                assert(v@.to_multiset() =~= before.to_multiset());
            }
            j -= 1;
        }
        proof {
            assert forall|a: int, b: int| 0 <= a < b <= i && b < len implies #[trigger] v@[a].as_int()
                <= #[trigger] v@[b].as_int() by {
                if b == j {
                    if j > 0 {
                        assert(v@[j - 1].as_int() <= v@[j as int].as_int());
                        if a < j - 1 {
                            assert(v@[a].as_int() <= v@[j - 1].as_int());
                        }
                    }
                }
            }
        }
        i += 1;
    }
    proof {
        let leq = value_leq::<T>();
        assert forall|a: int, b: int| 0 <= a < b < v@.len() implies #[trigger] leq(
            v@[a],
            v@[b],
        ) by {
            assert(leq(v@[a], v@[b]) == (v@[a].as_int() <= v@[b].as_int()));
            if len >= 1 {
                assert(v@[a].as_int() <= v@[b].as_int());
            }
        }
    }
}

/// The median filter: each output channel independently takes the median of
/// the window values that lie inside the image, so window sizes shrink near
/// the edges. The channels are treated independently (not a vector median),
/// which can shift colors; that is the documented behavior.
#[derive(Debug, PartialEq, Eq, Clone, Copy)]
pub struct MedianFilter {
    pub width: usize,
    pub height: usize,
}

impl MedianFilter {
    /// Builds the filter; both window dimensions must be odd.
    pub fn new(width: usize, height: usize) -> (r: Result<MedianFilter, ImageError>)
        ensures
            (width % 2 == 1 && height % 2 == 1) <==> r is Ok,
            r matches Ok(f) ==> f.width == width && f.height == height,
    {
        if width % 2 != 1 || height % 2 != 1 {
            return Err(ImageError::InvalidImage);
        }
        Ok(MedianFilter { width, height })
    }

    /// Applies the filter: a fresh image of the input's dimensions where
    /// every cell holds the per-channel window medians.
    pub fn filter<P: Pixel>(&self, img: &Image<P>) -> (out: Image<P>)
        requires
            self.width % 2 == 1,
            self.height % 2 == 1,
            self.width * self.height <= MAX_KERNEL_CELLS,
            img.wf(),
            img.w + 4096 <= isize::MAX,
            img.h + 4096 <= isize::MAX,
        ensures
            out.wf(),
            out.w == img.w,
            out.h == img.h,
            forall|x: int, y: int|
                img.in_bounds(x, y) ==> #[trigger] median_cell_ok(
                    *img,
                    out,
                    self.width as int,
                    self.height as int,
                    x,
                    y,
                ),
    {
        let _buf_len = img.data.len();
        let mut out: Image<P> = Image::new(img.width(), img.height());
        let mut y: usize = 0;
        while y < img.height()
            invariant
                self.width % 2 == 1,
                self.height % 2 == 1,
                self.width * self.height <= MAX_KERNEL_CELLS,
                img.wf(),
                img.w + 4096 <= isize::MAX,
                img.h + 4096 <= isize::MAX,
                out.wf(),
                out.w == img.w,
                out.h == img.h,
                out.stride == img.w,
                y <= img.h,
                forall|a: int, b: int|
                    img.in_bounds(a, b) && b < y ==> #[trigger] median_cell_ok(
                        *img,
                        out,
                        self.width as int,
                        self.height as int,
                        a,
                        b,
                    ),
            decreases img.h - y,
        {
            let mut x: usize = 0;
            while x < img.width()
                invariant
                    self.width % 2 == 1,
                    self.height % 2 == 1,
                    self.width * self.height <= MAX_KERNEL_CELLS,
                    img.wf(),
                    img.w + 4096 <= isize::MAX,
                    img.h + 4096 <= isize::MAX,
                    out.wf(),
                    out.w == img.w,
                    out.h == img.h,
                    out.stride == img.w,
                    y < img.h,
                    x <= img.w,
                    forall|a: int, b: int|
                        img.in_bounds(a, b) && (b < y || (b == y && a < x))
                            ==> #[trigger] median_cell_ok(
                            *img,
                            out,
                            self.width as int,
                            self.height as int,
                            a,
                            b,
                        ),
                decreases img.w - x,
            {
                let p = median_filter_calc_one(self, x, y, img);
                let ghost out_prev = out;
                out.put(x, y, p);
                proof {
                    assert forall|a: int, b: int|
                        img.in_bounds(a, b) && (b < y || (b == y && a <= x))
                            implies #[trigger] median_cell_ok(
                        *img,
                        out,
                        self.width as int,
                        self.height as int,
                        a,
                        b,
                    ) by {
                        if a == x && b == y {
                            assert(out.pix(a, b) == p);
                        } else {
                            assert(out.pix(a, b) == out_prev.pix(a, b));
                            assert(median_cell_ok(
                                *img,
                                out_prev,
                                self.width as int,
                                self.height as int,
                                a,
                                b,
                            ));
                        }
                    }
                }
                x += 1;
            }
            y += 1;
        }
        out
    }
}

/// Computes one output cell of the median filter: per channel, collects the
/// in-image window values, sorts them ascending, and takes the element at
/// index `count / 2`.
#[verifier::rlimit(60)]
fn median_filter_calc_one<P: Pixel>(filter: &MedianFilter, x: usize, y: usize, img: &Image<P>) -> (r:
    P)
    requires
        filter.width % 2 == 1,
        filter.height % 2 == 1,
        filter.width * filter.height <= MAX_KERNEL_CELLS,
        img.wf(),
        x < img.w,
        y < img.h,
        img.w + 4096 <= isize::MAX,
        img.h + 4096 <= isize::MAX,
    ensures
        r.channel_seq().len() == P::spec_channels(),
        forall|c: int|
            0 <= c < P::spec_channels() ==> #[trigger] r.channel_seq()[c] == median_value(
                *img,
                filter.width as int,
                filter.height as int,
                x as int,
                y as int,
                c,
            ),
{
    let fw = filter.width;
    let fh = filter.height;
    let half_x = fw / 2;
    let half_y = fh / 2;
    let sx = x as isize - half_x as isize;
    let sy = y as isize - half_y as isize;
    let w = img.width();
    let h = img.height();
    let channels = P::channels();
    proof {
        assert(1 <= fw * fh && fw <= fw * fh && fh <= fw * fh) by (nonlinear_arith)
            requires
                fw >= 1,
                fh >= 1,
        ;
    }
    let mut r = P::zero();
    proof {
        r.lemma_channel_count();
    }
    let mut c: usize = 0;
    while c < channels
        invariant
            filter.width % 2 == 1,
            filter.height % 2 == 1,
            fw == filter.width,
            fh == filter.height,
            1 <= fw <= MAX_KERNEL_CELLS,
            1 <= fh <= MAX_KERNEL_CELLS,
            fw * fh <= MAX_KERNEL_CELLS,
            img.wf(),
            x < img.w,
            y < img.h,
            w == img.w,
            h == img.h,
            img.w + 4096 <= isize::MAX,
            img.h + 4096 <= isize::MAX,
            half_x == fw / 2,
            half_y == fh / 2,
            sx as int == x - half_x,
            sy as int == y - half_y,
            channels == P::spec_channels(),
            r.channel_seq().len() == channels,
            c <= channels,
            forall|cc: int|
                0 <= cc < c ==> #[trigger] r.channel_seq()[cc] == median_value(
                    *img,
                    fw as int,
                    fh as int,
                    x as int,
                    y as int,
                    cc,
                ),
        decreases channels - c,
    {
        let mut counter: Vec<P::Subpixel> = Vec::new();
        let mut i: usize = 0;
        while i < fw
            invariant
                fw == filter.width,
                fh == filter.height,
                1 <= fw <= MAX_KERNEL_CELLS,
                1 <= fh <= MAX_KERNEL_CELLS,
                fw * fh <= MAX_KERNEL_CELLS,
                img.wf(),
                x < img.w,
                y < img.h,
                w == img.w,
                h == img.h,
                img.w + 4096 <= isize::MAX,
                img.h + 4096 <= isize::MAX,
                half_x == fw / 2,
                half_y == fh / 2,
                sx as int == x - half_x,
                sy as int == y - half_y,
                channels == P::spec_channels(),
                c < channels,
                i <= fw,
                i * fh <= fw * fh,
                counter@ == median_window_prefix(
                    *img,
                    fw as int,
                    fh as int,
                    x as int,
                    y as int,
                    c as int,
                    (i * fh) as nat,
                ),
                counter@.len() <= i * fh,
            decreases fw - i,
        {
            proof {
                assert(i * fh + fh == (i + 1) * fh <= fw * fh) by (nonlinear_arith)
                    requires
                        i + 1 <= fw,
                        fh >= 1,
                ;
            }
            let mut j: usize = 0;
            while j < fh
                invariant
                    fw == filter.width,
                    fh == filter.height,
                    1 <= fw <= MAX_KERNEL_CELLS,
                    1 <= fh <= MAX_KERNEL_CELLS,
                    fw * fh <= MAX_KERNEL_CELLS,
                    img.wf(),
                    x < img.w,
                    y < img.h,
                    w == img.w,
                    h == img.h,
                    img.w + 4096 <= isize::MAX,
                    img.h + 4096 <= isize::MAX,
                    half_x == fw / 2,
                    half_y == fh / 2,
                    sx as int == x - half_x,
                    sy as int == y - half_y,
                    channels == P::spec_channels(),
                    c < channels,
                    i < fw,
                    j <= fh,
                    i * fh + fh <= fw * fh,
                    counter@ == median_window_prefix(
                        *img,
                        fw as int,
                        fh as int,
                        x as int,
                        y as int,
                        c as int,
                        (i * fh + j) as nat,
                    ),
                    counter@.len() <= i * fh + j,
                decreases fh - j,
            {
                let cx = sx + i as isize;
                let cy = sy + j as isize;
                let ghost n = (i * fh + j) as nat;
                proof {
                    crate::image::lemma_grid_offset(fh as int, j as int, i as int);
                    assert((i as int) * (fh as int) + (j as int) >= 0) by (nonlinear_arith)
                        requires
                            i >= 0,
                            j >= 0,
                            fh >= 1,
                    ;
                    assert(n as int == (i as int) * (fh as int) + (j as int));
                    assert(n as int == (fh as int) * (i as int) + (j as int)) by (nonlinear_arith)
                        requires
                            n as int == (i as int) * (fh as int) + (j as int),
                    ;
                    assert((n as int) / (fh as int) == i as int);
                    assert((n as int) % (fh as int) == j as int);
                }
                if 0 <= cx && cx < w as isize && 0 <= cy && cy < h as isize {
                    let p = img.get(cx as usize, cy as usize);
                    counter.push(p.channel(c));
                }
                j += 1;
            }
            i += 1;
            proof {
                assert(i * fh == (i - 1) * fh + fh) by (nonlinear_arith);
            }
        }
        proof {
            lemma_median_window_nonempty(
                *img,
                fw as int,
                fh as int,
                x as int,
                y as int,
                c as int,
            );
        }
        sort_values(&mut counter);
        proof {
            lemma_value_leq_total_ordering::<P::Subpixel>();
            let window = median_window(*img, fw as int, fh as int, x as int, y as int, c as int);
            window.lemma_sort_by_ensures(value_leq::<P::Subpixel>());
            vstd::seq_lib::lemma_sorted_unique(
                counter@,
                window.sort_by(value_leq::<P::Subpixel>()),
                value_leq::<P::Subpixel>(),
            );
            assert(counter@ == window.sort_by(value_leq::<P::Subpixel>()));
        }
        let len = counter.len();
        let med = counter[len / 2];
        r.set_channel(c, med);
        c += 1;
    }
    r
}

} // verus!
