//! The kernel convolution engine: integer-weight kernels applied over a
//! neighborhood of every cell, sampling off-edge neighbors with the `Extend`
//! boundary policy and clamping each accumulated channel back into the
//! subpixel range.

use vstd::prelude::*;
use crate::eye::{extend_coord, Eye};
use crate::image::{lemma_grid_index, lemma_grid_offset, Image, ImageError};
use crate::pixel::{clamp_int, Pixel, Primitive};

verus! {

/// Largest admissible kernel weight magnitude.
pub const MAX_WEIGHT: i64 = 0x10_0000;

/// Largest admissible kernel cell count.
pub const MAX_KERNEL_CELLS: usize = 4096;

/// The pixel that `Extend` sampling yields at `(x, y)`: each axis clamps
/// independently into the image.
pub open spec fn sample_extend<P: Pixel>(img: Image<P>, x: int, y: int) -> P
    recommends
        img.wf(),
        img.w >= 1,
        img.h >= 1,
{
    img.pix(extend_coord(x, img.w as int), extend_coord(y, img.h as int))
}

/// One weighted sample of a window scan: cell `k` of a `kw` by `kh` window
/// centered on `(x, y)` (column `k / kh`, row `k % kh`), times its weight.
pub open spec fn window_cell<P: Pixel>(
    img: Image<P>,
    x: int,
    y: int,
    c: int,
    kw: int,
    kh: int,
    wt: spec_fn(int, int) -> int,
    k: int,
) -> int {
    wt(k / kh, k % kh) * sample_extend(
        img,
        x + k / kh - kw / 2,
        y + k % kh - kh / 2,
    ).channel_seq()[c].as_int()
}

/// Sum of the first `n` weighted samples of the window scan.
pub open spec fn window_sum_prefix<P: Pixel>(
    img: Image<P>,
    x: int,
    y: int,
    c: int,
    kw: int,
    kh: int,
    wt: spec_fn(int, int) -> int,
    n: nat,
) -> int
    decreases n,
{
    if n == 0 {
        0
    } else {
        window_sum_prefix(img, x, y, c, kw, kh, wt, (n - 1) as nat) + window_cell(
            img,
            x,
            y,
            c,
            kw,
            kh,
            wt,
            n - 1,
        )
    }
}

/// An immutable 2D matrix of integer convolution weights with a unique
/// center cell, addressable by `(column, row)`.
pub trait Kernel: Sized {
    spec fn spec_width(&self) -> int;

    spec fn spec_height(&self) -> int;

    /// The weight at column `x`, row `y`.
    spec fn spec_weight(&self, x: int, y: int) -> int;

    /// Well-formedness: odd dimensions (so a unique center exists) and
    /// machine caps on the cell count and the weight magnitudes.
    spec fn wf(&self) -> bool;

    proof fn lemma_wf(&self)
        requires
            self.wf(),
        ensures
            1 <= self.spec_width() <= MAX_KERNEL_CELLS,
            1 <= self.spec_height() <= MAX_KERNEL_CELLS,
            self.spec_width() % 2 == 1,
            self.spec_height() % 2 == 1,
            self.spec_width() * self.spec_height() <= MAX_KERNEL_CELLS,
            forall|x: int, y: int|
                0 <= x < self.spec_width() && 0 <= y < self.spec_height() ==> -MAX_WEIGHT
                    <= #[trigger] self.spec_weight(x, y) <= MAX_WEIGHT,
    ;

    fn size(&self) -> (s: (usize, usize))
        ensures
            s.0 as int == self.spec_width(),
            s.1 as int == self.spec_height(),
    ;

    fn weight(&self, x: usize, y: usize) -> (w: i64)
        requires
            self.wf(),
            x < self.spec_width(),
            y < self.spec_height(),
        ensures
            w as int == self.spec_weight(x as int, y as int),
    ;
}

/// The weight matrix of a kernel as a function of `(column, row)`.
pub open spec fn kern_weight_fn<K: Kernel>(kern: K) -> spec_fn(int, int) -> int {
    |i: int, j: int| kern.spec_weight(i, j)
}

/// The full convolution sum at cell `(x, y)`, channel `c`: every kernel cell
/// `(i, j)` weights the `Extend` sample at
/// `(x + i - width / 2, y + j - height / 2)`.
pub open spec fn conv_sum<K: Kernel, P: Pixel>(
    kern: K,
    img: Image<P>,
    x: int,
    y: int,
    c: int,
) -> int {
    window_sum_prefix(
        img,
        x,
        y,
        c,
        kern.spec_width(),
        kern.spec_height(),
        kern_weight_fn(kern),
        (kern.spec_width() * kern.spec_height()) as nat,
    )
}

/// What convolution writes at cell `(x, y)`: every channel is the clamped
/// convolution sum.
pub open spec fn conv_cell_ok<K: Kernel, P: Pixel>(
    kern: K,
    img: Image<P>,
    out: Image<P>,
    x: int,
    y: int,
) -> bool {
    &&& out.pix(x, y).channel_seq().len() == P::spec_channels()
    &&& forall|c: int|
        0 <= c < P::spec_channels() ==> #[trigger] out.pix(x, y).channel_seq()[c].as_int()
            == clamp_int(
            conv_sum(kern, img, x, y, c),
            P::Subpixel::spec_min(),
            P::Subpixel::spec_max(),
        )
}

/// Every window-scan prefix is bounded by its sample count times the largest
/// weighted sample.
pub proof fn lemma_window_sum_bound<P: Pixel>(
    img: Image<P>,
    x: int,
    y: int,
    c: int,
    kw: int,
    kh: int,
    wt: spec_fn(int, int) -> int,
    n: nat,
)
    requires
        kw >= 1,
        kh >= 1,
        0 <= c < P::spec_channels(),
        n <= kw * kh,
        forall|i: int, j: int|
            0 <= i < kw && 0 <= j < kh ==> -(MAX_WEIGHT as int) <= #[trigger] wt(i, j) <= (
            MAX_WEIGHT as int),
    ensures
        -(n as int) * 0x1000_0000_0000 <= window_sum_prefix(img, x, y, c, kw, kh, wt, n) <= (
        n as int) * 0x1000_0000_0000,
    decreases n,
{
    if n > 0 {
        lemma_window_sum_bound(img, x, y, c, kw, kh, wt, (n - 1) as nat);
        let k = n - 1;
        assert(0 <= k / kh < kw && 0 <= k % kh < kh) by (nonlinear_arith)
            requires
                0 <= k < kw * kh,
                kh >= 1,
        ;
        let p = sample_extend(img, x + k / kh - kw / 2, y + k % kh - kh / 2);
        p.lemma_channel_count();
        let v = p.channel_seq()[c];
        v.lemma_bounds();
        assert(-0x1000_0000_0000 <= wt(k / kh, k % kh) * v.as_int() <= 0x1000_0000_0000)
            by (nonlinear_arith)
            requires
                -(MAX_WEIGHT as int) <= wt(k / kh, k % kh) <= (MAX_WEIGHT as int),
                0 <= v.as_int() <= 0x100_0000,
        ;
        assert(((n - 1) as int) * 0x1000_0000_0000 + 0x1000_0000_0000 == (n as int)
            * 0x1000_0000_0000) by (nonlinear_arith);
    }
}

/// Identity law: convolving with a single-cell kernel of weight one leaves
/// every in-bounds cell of the image unchanged — the convolution sum at each
/// channel is exactly the input channel, and clamping it is a no-op.
pub proof fn lemma_unit_kernel_identity<K: Kernel, P: Pixel>(
    kern: K,
    img: Image<P>,
    x: int,
    y: int,
    c: int,
)
    requires
        kern.wf(),
        kern.spec_width() == 1,
        kern.spec_height() == 1,
        kern.spec_weight(0, 0) == 1,
        img.wf(),
        img.in_bounds(x, y),
        0 <= c < P::spec_channels(),
    ensures
        conv_sum(kern, img, x, y, c) == img.pix(x, y).channel_seq()[c].as_int(),
        clamp_int(
            conv_sum(kern, img, x, y, c),
            P::Subpixel::spec_min(),
            P::Subpixel::spec_max(),
        ) == img.pix(x, y).channel_seq()[c].as_int(),
{
    let wt = kern_weight_fn(kern);
    reveal_with_fuel(window_sum_prefix, 2);
    assert(wt(0, 0) == 1);
    assert(extend_coord(x, img.w as int) == x);
    assert(extend_coord(y, img.h as int) == y);
    assert(window_cell(img, x, y, c, 1, 1, wt, 0) == img.pix(x, y).channel_seq()[c].as_int());
    assert(conv_sum(kern, img, x, y, c) == window_sum_prefix(img, x, y, c, 1, 1, wt, 1nat));
    img.pix(x, y).lemma_channel_count();
    img.pix(x, y).channel_seq()[c].lemma_bounds();
}

/// Image-level identity law: an output produced by convolving with a
/// single-cell kernel of weight one holds, cell for cell, the channels of
/// the input.
pub proof fn lemma_unit_kernel_filter_identity<K: Kernel, P: Pixel>(
    kern: K,
    img: Image<P>,
    out: Image<P>,
)
    requires
        kern.wf(),
        kern.spec_width() == 1,
        kern.spec_height() == 1,
        kern.spec_weight(0, 0) == 1,
        img.wf(),
        out.wf(),
        out.w == img.w,
        out.h == img.h,
        forall|x: int, y: int|
            img.in_bounds(x, y) ==> #[trigger] conv_cell_ok(kern, img, out, x, y),
    ensures
        forall|x: int, y: int|
            img.in_bounds(x, y) ==> #[trigger] out.pix(x, y).channel_seq() == img.pix(
                x,
                y,
            ).channel_seq(),
{
    assert forall|x: int, y: int| img.in_bounds(x, y) implies #[trigger] out.pix(
        x,
        y,
    ).channel_seq() == img.pix(x, y).channel_seq() by {
        assert(conv_cell_ok(kern, img, out, x, y));
        img.pix(x, y).lemma_channel_count();
        assert forall|c: int| 0 <= c < P::spec_channels() implies out.pix(x, y).channel_seq()[c]
            == img.pix(x, y).channel_seq()[c] by {
            lemma_unit_kernel_identity(kern, img, x, y, c);
            P::Subpixel::lemma_injective(
                out.pix(x, y).channel_seq()[c],
                img.pix(x, y).channel_seq()[c],
            );
        }
        assert(out.pix(x, y).channel_seq() =~= img.pix(x, y).channel_seq());
    }
}

/// A general integer-weight kernel, stored row-major.
#[derive(Debug, PartialEq, Eq, Clone)]
pub struct GeneralKernel {
    pub width: usize,
    pub height: usize,
    pub data: Vec<i64>,
}

impl Kernel for GeneralKernel {
    open spec fn spec_width(&self) -> int {
        self.width as int
    }

    open spec fn spec_height(&self) -> int {
        self.height as int
    }

    open spec fn spec_weight(&self, x: int, y: int) -> int {
        self.data@[y * self.width + x] as int
    }

    open spec fn wf(&self) -> bool {
        &&& self.data@.len() == self.width * self.height
        &&& 1 <= self.width
        &&& 1 <= self.height
        &&& self.width % 2 == 1
        &&& self.height % 2 == 1
        &&& self.width * self.height <= MAX_KERNEL_CELLS
        &&& forall|k: int|
            0 <= k < self.data@.len() ==> -MAX_WEIGHT <= #[trigger] self.data@[k] <= MAX_WEIGHT
    }

    proof fn lemma_wf(&self) {
        assert(self.width <= self.width * self.height && self.height <= self.width * self.height)
            by (nonlinear_arith)
            requires
                self.width >= 1,
                self.height >= 1,
        ;
        assert forall|x: int, y: int|
            0 <= x < self.spec_width() && 0 <= y < self.spec_height() implies -MAX_WEIGHT
            <= #[trigger] self.spec_weight(x, y) <= MAX_WEIGHT by {
            lemma_grid_index(self.width as int, self.height as int, x, y);
            assert(y * self.width + x == self.width * y + x);
        }
    }

    fn size(&self) -> (s: (usize, usize)) {
        (self.width, self.height)
    }

    fn weight(&self, x: usize, y: usize) -> (w: i64) {
        proof {
            lemma_grid_index(self.width as int, self.height as int, x as int, y as int);
            assert(y * self.width + x == self.width * y + x);
        }
        let _buf_len = self.data.len();
        self.data[y * self.width + x]
    }
}

impl GeneralKernel {
    /// Builds a kernel over a copy of `weights`, which must hold exactly
    /// `width * height` entries, row-major.
    pub fn new(width: usize, height: usize, weights: &[i64]) -> (r: Result<
        GeneralKernel,
        ImageError,
    >)
        ensures
            (width * height == weights@.len()) <==> r is Ok,
            r matches Ok(k) ==> {
                &&& k.width == width
                &&& k.height == height
                &&& k.data@ == weights@
            },
    {
        let len = match width.checked_mul(height) {
            Some(l) => l,
            None => {
                let wlen = weights.len();
                proof {
                    assert(width * height > usize::MAX >= wlen);
                }
                return Err(ImageError::InvalidImage);
            },
        };
        if len != weights.len() {
            return Err(ImageError::InvalidImage);
        }
        let mut buf: Vec<i64> = Vec::new();
        let mut k: usize = 0;
        while k < len
            invariant
                k <= len,
                len == weights@.len(),
                buf@.len() == k,
                forall|j: int| 0 <= j < k ==> buf@[j] == weights@[j],
            decreases len - k,
        {
            buf.push(weights[k]);
            k += 1;
        }
        proof {
            assert(buf@ =~= weights@);
        }
        Ok(GeneralKernel { width, height, data: buf })
    }

    /// Applies this kernel to the whole image; see `convolve`.
    pub fn filter<P: Pixel>(&self, img: &Image<P>) -> (out: Image<P>)
        requires
            self.wf(),
            img.wf(),
            img.w + 4096 <= isize::MAX,
            img.h + 4096 <= isize::MAX,
        ensures
            out.wf(),
            out.w == img.w,
            out.h == img.h,
            forall|x: int, y: int|
                img.in_bounds(x, y) ==> #[trigger] conv_cell_ok(*self, *img, out, x, y),
    {
        convolve(self, img)
    }
}

/// Computes one output cell of the convolution: accumulates, over every
/// kernel cell, the weighted `Extend` sample of the corresponding input
/// coordinate, then clamps each channel into the subpixel range.
#[verifier::rlimit(60)]
pub fn kern_calc_one_pos<K: Kernel, P: Pixel>(kern: &K, x: usize, y: usize, img: &Image<P>) -> (r:
    P)
    requires
        kern.wf(),
        img.wf(),
        x < img.w,
        y < img.h,
        img.w + 4096 <= isize::MAX,
        img.h + 4096 <= isize::MAX,
    ensures
        r.channel_seq().len() == P::spec_channels(),
        forall|c: int|
            0 <= c < P::spec_channels() ==> #[trigger] r.channel_seq()[c].as_int() == clamp_int(
                conv_sum(*kern, *img, x as int, y as int, c),
                P::Subpixel::spec_min(),
                P::Subpixel::spec_max(),
            ),
{
    proof {
        kern.lemma_wf();
    }
    let (kw, kh) = kern.size();
    let half_x = kw / 2;
    let half_y = kh / 2;
    let sx = x as isize - half_x as isize;
    let sy = y as isize - half_y as isize;
    let ghost wt = kern_weight_fn(*kern);
    let channels = P::channels();
    let mut acc: Vec<i64> = Vec::new();
    let mut c0: usize = 0;
    while c0 < channels
        invariant
            c0 <= channels,
            acc@.len() == c0,
            forall|c: int| 0 <= c < c0 ==> acc@[c] == 0,
        decreases channels - c0,
    {
        acc.push(0);
        c0 += 1;
    }
    let mut i: usize = 0;
    while i < kw
        invariant
            kern.wf(),
            img.wf(),
            x < img.w,
            y < img.h,
            img.w + 4096 <= isize::MAX,
            img.h + 4096 <= isize::MAX,
            kw as int == kern.spec_width(),
            kh as int == kern.spec_height(),
            1 <= kw <= 4096,
            1 <= kh <= 4096,
            kw * kh <= 4096,
            half_x == kw / 2,
            half_y == kh / 2,
            sx as int == x - half_x,
            sy as int == y - half_y,
            wt == kern_weight_fn(*kern),
            channels == P::spec_channels(),
            acc@.len() == channels,
            i <= kw,
            i * kh <= kw * kh,
            forall|c: int|
                0 <= c < channels ==> #[trigger] acc@[c] == window_sum_prefix(
                    *img,
                    x as int,
                    y as int,
                    c,
                    kw as int,
                    kh as int,
                    wt,
                    (i * kh) as nat,
                ),
        decreases kw - i,
    {
        proof {
            assert(i * kh + kh == (i + 1) * kh <= kw * kh) by (nonlinear_arith)
                requires
                    i + 1 <= kw,
                    kh >= 1,
            ;
        }
        let mut j: usize = 0;
        while j < kh
            invariant
                kern.wf(),
                img.wf(),
                x < img.w,
                y < img.h,
                img.w + 4096 <= isize::MAX,
                img.h + 4096 <= isize::MAX,
                kw as int == kern.spec_width(),
                kh as int == kern.spec_height(),
                1 <= kw <= 4096,
                1 <= kh <= 4096,
                kw * kh <= 4096,
                half_x == kw / 2,
                half_y == kh / 2,
                sx as int == x - half_x,
                sy as int == y - half_y,
                wt == kern_weight_fn(*kern),
                channels == P::spec_channels(),
                acc@.len() == channels,
                i < kw,
                j <= kh,
                i * kh + kh <= kw * kh,
                forall|c: int|
                    0 <= c < channels ==> #[trigger] acc@[c] == window_sum_prefix(
                        *img,
                        x as int,
                        y as int,
                        c,
                        kw as int,
                        kh as int,
                        wt,
                        (i * kh + j) as nat,
                    ),
            decreases kh - j,
        {
            let ix = sx + i as isize;
            let iy = sy + j as isize;
            let eye = Eye::<P>::new(ix, iy);
            let a = eye.look(img);
            proof {
                assert(a == sample_extend(*img, ix as int, iy as int));
            }
            let wgt = kern.weight(i, j);
            let ghost n = (i * kh + j) as nat;
            proof {
                lemma_grid_offset(kh as int, j as int, i as int);
                assert((i as int) * (kh as int) + (j as int) >= 0) by (nonlinear_arith)
                    requires
                        i >= 0,
                        j >= 0,
                        kh >= 1,
                ;
                assert(n as int == (i as int) * (kh as int) + (j as int));
                assert(n as int == (kh as int) * (i as int) + (j as int)) by (nonlinear_arith)
                    requires
                        n as int == (i as int) * (kh as int) + (j as int),
                ;
                assert((n as int) / (kh as int) == i as int);
                assert((n as int) % (kh as int) == j as int);
                assert(n < kw * kh);
            }
            let mut c: usize = 0;
            while c < channels
                invariant
                    kern.wf(),
                    img.wf(),
                    x < img.w,
                    y < img.h,
                    kw as int == kern.spec_width(),
                    kh as int == kern.spec_height(),
                    1 <= kw <= 4096,
                    1 <= kh <= 4096,
                    kw * kh <= 4096,
                    wt == kern_weight_fn(*kern),
                    channels == P::spec_channels(),
                    acc@.len() == channels,
                    i < kw,
                    j < kh,
                    n == i * kh + j,
                    n < kw * kh,
                    (n as int) / (kh as int) == i as int,
                    (n as int) % (kh as int) == j as int,
                    ix as int == x + i - kw / 2,
                    iy as int == y + j - kh / 2,
                    a == sample_extend(*img, ix as int, iy as int),
                    wgt as int == kern.spec_weight(i as int, j as int),
                    c <= channels,
                    forall|cc: int|
                        0 <= cc < c ==> #[trigger] acc@[cc] == window_sum_prefix(
                            *img,
                            x as int,
                            y as int,
                            cc,
                            kw as int,
                            kh as int,
                            wt,
                            (n + 1) as nat,
                        ),
                    forall|cc: int|
                        c <= cc < channels ==> #[trigger] acc@[cc] == window_sum_prefix(
                            *img,
                            x as int,
                            y as int,
                            cc,
                            kw as int,
                            kh as int,
                            wt,
                            n,
                        ),
                decreases channels - c,
            {
                let v = a.channel(c);
                let vi = v.to_i64();
                proof {
                    a.lemma_channel_count();
                    v.lemma_bounds();
                    kern.lemma_wf();
                    assert(wt(i as int, j as int) == kern.spec_weight(i as int, j as int));
                    assert forall|i2: int, j2: int|
                        0 <= i2 < kw && 0 <= j2 < kh implies -(MAX_WEIGHT as int) <= #[trigger] wt(
                        i2,
                        j2,
                    ) <= (MAX_WEIGHT as int) by {
                        assert(wt(i2, j2) == kern.spec_weight(i2, j2));
                    }
                    assert(-0x1000_0000_0000 <= (vi as int) * (wgt as int) <= 0x1000_0000_0000)
                        by (nonlinear_arith)
                        requires
                            0 <= vi as int <= 0x100_0000,
                            -(MAX_WEIGHT as int) <= wgt as int <= (MAX_WEIGHT as int),
                    ;
                    lemma_window_sum_bound(
                        *img,
                        x as int,
                        y as int,
                        c as int,
                        kw as int,
                        kh as int,
                        wt,
                        n,
                    );
                    assert((n as int) * 0x1000_0000_0000 <= 4096 * 0x1000_0000_0000)
                        by (nonlinear_arith)
                        requires
                            n <= 4096,
                    ;
                    assert(window_sum_prefix(
                        *img,
                        x as int,
                        y as int,
                        c as int,
                        kw as int,
                        kh as int,
                        wt,
                        (n + 1) as nat,
                    ) == window_sum_prefix(
                        *img,
                        x as int,
                        y as int,
                        c as int,
                        kw as int,
                        kh as int,
                        wt,
                        n,
                    ) + window_cell(
                        *img,
                        x as int,
                        y as int,
                        c as int,
                        kw as int,
                        kh as int,
                        wt,
                        n as int,
                    ));
                    assert(wgt as int == wt((n as int) / (kh as int), (n as int) % (kh as int)));
                    assert(a.channel_seq()[c as int].as_int() == vi as int);
                    assert(sample_extend(
                        *img,
                        x + (n as int) / (kh as int) - (kw as int) / 2,
                        y + (n as int) % (kh as int) - (kh as int) / 2,
                    ) == a);
                    assert(window_cell(
                        *img,
                        x as int,
                        y as int,
                        c as int,
                        kw as int,
                        kh as int,
                        wt,
                        n as int,
                    ) == wt((n as int) / (kh as int), (n as int) % (kh as int)) * sample_extend(
                        *img,
                        x + (n as int) / (kh as int) - (kw as int) / 2,
                        y + (n as int) % (kh as int) - (kh as int) / 2,
                    ).channel_seq()[c as int].as_int());
                    assert((vi as int) * (wgt as int) == (wgt as int) * (vi as int))
                        by (nonlinear_arith);
                    assert(window_cell(
                        *img,
                        x as int,
                        y as int,
                        c as int,
                        kw as int,
                        kh as int,
                        wt,
                        n as int,
                    ) == (vi as int) * (wgt as int));
                }
                let prev = acc[c];
                acc[c] = prev + vi * wgt;
                c += 1;
            }
            j += 1;
        }
        i += 1;
        proof {
            assert(i * kh == (i - 1) * kh + kh) by (nonlinear_arith);
        }
    }
    let mut vals: Vec<P::Subpixel> = Vec::new();
    let mut c: usize = 0;
    while c < channels
        invariant
            channels == P::spec_channels(),
            acc@.len() == channels,
            c <= channels,
            vals@.len() == c,
            kw as int == kern.spec_width(),
            kh as int == kern.spec_height(),
            wt == kern_weight_fn(*kern),
            forall|cc: int|
                0 <= cc < channels ==> #[trigger] acc@[cc] == window_sum_prefix(
                    *img,
                    x as int,
                    y as int,
                    cc,
                    kw as int,
                    kh as int,
                    wt,
                    (kw * kh) as nat,
                ),
            forall|cc: int|
                0 <= cc < c ==> #[trigger] vals@[cc].as_int() == clamp_int(
                    conv_sum(*kern, *img, x as int, y as int, cc),
                    P::Subpixel::spec_min(),
                    P::Subpixel::spec_max(),
                ),
        decreases channels - c,
    {
        vals.push(P::Subpixel::from_i64_clamped(acc[c]));
        c += 1;
    }
    let r = P::from_raw(vals.as_slice());
    r
}

/// Convolves the whole image with the kernel: a fresh image of the same
/// dimensions where every cell is the independent result of
/// `kern_calc_one_pos` (a pure, order-independent map).
pub fn convolve<K: Kernel, P: Pixel>(kern: &K, img: &Image<P>) -> (out: Image<P>)
    requires
        kern.wf(),
        img.wf(),
        img.w + 4096 <= isize::MAX,
        img.h + 4096 <= isize::MAX,
    ensures
        out.wf(),
        out.w == img.w,
        out.h == img.h,
        forall|x: int, y: int|
            img.in_bounds(x, y) ==> #[trigger] conv_cell_ok(*kern, *img, out, x, y),
{
    let _buf_len = img.data.len();
    let mut out: Image<P> = Image::new(img.width(), img.height());
    let mut y: usize = 0;
    while y < img.height()
        invariant
            kern.wf(),
            img.wf(),
            img.w + 4096 <= isize::MAX,
            img.h + 4096 <= isize::MAX,
            out.wf(),
            out.w == img.w,
            out.h == img.h,
            out.stride == img.w,
            y <= img.h,
            forall|a: int, b: int|
                img.in_bounds(a, b) && b < y ==> #[trigger] conv_cell_ok(*kern, *img, out, a, b),
        decreases img.h - y,
    {
        let mut x: usize = 0;
        while x < img.width()
            invariant
                kern.wf(),
                img.wf(),
                img.w + 4096 <= isize::MAX,
                img.h + 4096 <= isize::MAX,
                out.wf(),
                out.w == img.w,
                out.h == img.h,
                out.stride == img.w,
                y < img.h,
                x <= img.w,
                forall|a: int, b: int|
                    img.in_bounds(a, b) && (b < y || (b == y && a < x)) ==> #[trigger] conv_cell_ok(
                        *kern,
                        *img,
                        out,
                        a,
                        b,
                    ),
            decreases img.w - x,
        {
            let p = kern_calc_one_pos(kern, x, y, img);
            let ghost out_prev = out;
            out.put(x, y, p);
            proof {
                assert forall|a: int, b: int|
                    img.in_bounds(a, b) && (b < y || (b == y && a <= x)) implies #[trigger] conv_cell_ok(
                    *kern,
                    *img,
                    out,
                    a,
                    b,
                ) by {
                    if a == x && b == y {
                        assert(out.pix(a, b) == p);
                    } else {
                        assert(out.pix(a, b) == out_prev.pix(a, b));
                        assert(conv_cell_ok(*kern, *img, out_prev, a, b));
                    }
                }
            }
            x += 1;
        }
        y += 1;
    }
    out
}

} // verus!
