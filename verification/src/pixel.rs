//! The pixel model: bounded numeric subpixels, channel-indexed pixel kinds
//! (gray, BGR, BGRA, RGBA, single-bit), and per-channel arithmetic with
//! explicit saturation.

use vstd::prelude::*;

verus! {

/// Clamps a mathematical integer into the closed interval `[lo, hi]`.
pub open spec fn clamp_int(v: int, lo: int, hi: int) -> int {
    if v < lo {
        lo
    } else if v > hi {
        hi
    } else {
        v
    }
}

/// A bounded, ordered numeric subpixel type. Every value is a mathematical
/// integer in `[spec_min(), spec_max()]`; the range is non-negative and small
/// enough that window sums and weighted sums of subpixel values fit in `i64`.
pub trait Primitive: Sized + Copy {
    /// The value as a mathematical integer.
    spec fn as_int(self) -> int;

    /// Smallest representable value.
    spec fn spec_min() -> int;

    /// Largest representable value.
    spec fn spec_max() -> int;

    /// Every value lies within the representable range, and the range itself
    /// is non-negative and bounded by 2^24 so that accumulations fit in `i64`.
    proof fn lemma_bounds(self)
        ensures
            Self::spec_min() <= self.as_int() <= Self::spec_max(),
            0 <= Self::spec_min(),
            Self::spec_max() <= 0x100_0000,
    ;

    /// Two values with the same integer interpretation are the same value.
    proof fn lemma_injective(a: Self, b: Self)
        requires
            a.as_int() == b.as_int(),
        ensures
            a == b,
    ;

    fn zero() -> (r: Self)
        ensures
            r.as_int() == 0,
    ;

    fn min_value() -> (r: Self)
        ensures
            r.as_int() == Self::spec_min(),
    ;

    fn max_value() -> (r: Self)
        ensures
            r.as_int() == Self::spec_max(),
    ;

    fn le(self, other: Self) -> (r: bool)
        ensures
            r == (self.as_int() <= other.as_int()),
    ;

    fn value_eq(self, other: Self) -> (r: bool)
        ensures
            r == (self.as_int() == other.as_int()),
    ;

    fn to_i64(self) -> (r: i64)
        ensures
            r as int == self.as_int(),
    ;

    fn from_i64(v: i64) -> (r: Self)
        requires
            Self::spec_min() <= v as int <= Self::spec_max(),
        ensures
            r.as_int() == v as int,
    ;

    fn from_i64_clamped(v: i64) -> (r: Self)
        ensures
            r.as_int() == clamp_int(v as int, Self::spec_min(), Self::spec_max()),
    ;
}

impl Primitive for u8 {
    open spec fn as_int(self) -> int {
        self as int
    }

    open spec fn spec_min() -> int {
        0
    }

    open spec fn spec_max() -> int {
        255
    }

    proof fn lemma_bounds(self) {
    }

    proof fn lemma_injective(a: Self, b: Self) {
    }

    fn zero() -> (r: Self) {
        0
    }

    fn min_value() -> (r: Self) {
        0
    }

    fn max_value() -> (r: Self) {
        255
    }

    fn le(self, other: Self) -> (r: bool) {
        self <= other
    }

    fn value_eq(self, other: Self) -> (r: bool) {
        self == other
    }

    fn to_i64(self) -> (r: i64) {
        self as i64
    }

    fn from_i64(v: i64) -> (r: Self) {
        v as u8
    }

    fn from_i64_clamped(v: i64) -> (r: Self) {
        if v < 0 {
            0
        } else if v > 255 {
            255
        } else {
            v as u8
        }
    }
}

impl Primitive for u16 {
    open spec fn as_int(self) -> int {
        self as int
    }

    open spec fn spec_min() -> int {
        0
    }

    open spec fn spec_max() -> int {
        65535
    }

    proof fn lemma_bounds(self) {
    }

    proof fn lemma_injective(a: Self, b: Self) {
    }

    fn zero() -> (r: Self) {
        0
    }

    fn min_value() -> (r: Self) {
        0
    }

    fn max_value() -> (r: Self) {
        65535
    }

    fn le(self, other: Self) -> (r: bool) {
        self <= other
    }

    fn value_eq(self, other: Self) -> (r: bool) {
        self == other
    }

    fn to_i64(self) -> (r: i64) {
        self as i64
    }

    fn from_i64(v: i64) -> (r: Self) {
        v as u16
    }

    fn from_i64_clamped(v: i64) -> (r: Self) {
        if v < 0 {
            0
        } else if v > 65535 {
            65535
        } else {
            v as u16
        }
    }
}

/// A pixel: a fixed-size tuple of subpixel channels. The channel count is a
/// type-level constant between 1 and 4; a pixel is a plain value.
pub trait Pixel: Sized + Copy {
    type Subpixel: Primitive;

    /// The channels as a sequence, in the pixel kind's fixed order.
    spec fn channel_seq(self) -> Seq<Self::Subpixel>;

    /// The channel count of this pixel kind.
    spec fn spec_channels() -> usize;

    /// The channel sequence always has exactly `spec_channels()` entries,
    /// and the count is between 1 and 4.
    proof fn lemma_channel_count(self)
        ensures
            self.channel_seq().len() == Self::spec_channels(),
            1 <= Self::spec_channels() <= 4,
    ;

    fn channels() -> (n: usize)
        ensures
            n == Self::spec_channels(),
    ;

    fn bits_per_pixel() -> (n: usize)
        ensures
            n == 8 * Self::spec_channels(),
    ;

    fn zero() -> (p: Self)
        ensures
            forall|i: int|
                0 <= i < Self::spec_channels() ==> #[trigger] p.channel_seq()[i].as_int() == 0,
    ;

    fn from_raw(data: &[Self::Subpixel]) -> (p: Self)
        requires
            data@.len() == Self::spec_channels(),
        ensures
            p.channel_seq() == data@,
    ;

    fn channel(&self, i: usize) -> (v: Self::Subpixel)
        requires
            i < Self::spec_channels(),
        ensures
            v == self.channel_seq()[i as int],
    ;

    fn set_channel(&mut self, i: usize, v: Self::Subpixel)
        requires
            i < Self::spec_channels(),
        ensures
            final(self).channel_seq() == old(self).channel_seq().update(i as int, v),
    ;

    fn raw(&self) -> (r: &[Self::Subpixel])
        ensures
            r@ == self.channel_seq(),
    ;
}

/// Gray-scale pixels: one intensity channel.
#[derive(PartialEq, Eq, Clone, Debug, Copy, Hash)]
pub struct Gray<T: Primitive> {
    pub data: [T; 1],
}

impl<T: Primitive> Pixel for Gray<T> {
    type Subpixel = T;

    open spec fn channel_seq(self) -> Seq<T> {
        self.data@
    }

    open spec fn spec_channels() -> usize {
        1
    }

    proof fn lemma_channel_count(self) {
    }

    fn channels() -> (n: usize) {
        1
    }

    fn bits_per_pixel() -> (n: usize) {
        8
    }

    fn zero() -> (p: Self) {
        Gray { data: [T::zero()] }
    }

    fn from_raw(data: &[T]) -> (p: Self) {
        let p = Gray { data: [data[0]] };
        proof {
            assert(p.channel_seq() =~= data@);
        }
        p
    }

    fn channel(&self, i: usize) -> (v: T) {
        self.data[i]
    }

    fn set_channel(&mut self, i: usize, v: T) {
        self.data[i] = v;
    }

    fn raw(&self) -> (r: &[T]) {
        vstd::array::array_as_slice(&self.data)
    }
}

/// BGR color pixels: blue, green, red, in that channel order.
#[derive(PartialEq, Eq, Clone, Debug, Copy, Hash)]
pub struct BGR<T: Primitive> {
    pub data: [T; 3],
}

impl<T: Primitive> Pixel for BGR<T> {
    type Subpixel = T;

    open spec fn channel_seq(self) -> Seq<T> {
        self.data@
    }

    open spec fn spec_channels() -> usize {
        3
    }

    proof fn lemma_channel_count(self) {
    }

    fn channels() -> (n: usize) {
        3
    }

    fn bits_per_pixel() -> (n: usize) {
        24
    }

    fn zero() -> (p: Self) {
        BGR { data: [T::zero(), T::zero(), T::zero()] }
    }

    fn from_raw(data: &[T]) -> (p: Self) {
        let p = BGR { data: [data[0], data[1], data[2]] };
        proof {
            assert(p.channel_seq() =~= data@);
        }
        p
    }

    fn channel(&self, i: usize) -> (v: T) {
        self.data[i]
    }

    fn set_channel(&mut self, i: usize, v: T) {
        self.data[i] = v;
    }

    fn raw(&self) -> (r: &[T]) {
        vstd::array::array_as_slice(&self.data)
    }
}

/// BGRA color pixels: blue, green, red, alpha, in that channel order.
#[derive(PartialEq, Eq, Clone, Debug, Copy, Hash)]
pub struct BGRA<T: Primitive> {
    pub data: [T; 4],
}

impl<T: Primitive> Pixel for BGRA<T> {
    type Subpixel = T;

    open spec fn channel_seq(self) -> Seq<T> {
        self.data@
    }

    open spec fn spec_channels() -> usize {
        4
    }

    proof fn lemma_channel_count(self) {
    }

    fn channels() -> (n: usize) {
        4
    }

    fn bits_per_pixel() -> (n: usize) {
        32
    }

    fn zero() -> (p: Self) {
        BGRA { data: [T::zero(), T::zero(), T::zero(), T::zero()] }
    }

    fn from_raw(data: &[T]) -> (p: Self) {
        let p = BGRA { data: [data[0], data[1], data[2], data[3]] };
        proof {
            assert(p.channel_seq() =~= data@);
        }
        p
    }

    fn channel(&self, i: usize) -> (v: T) {
        self.data[i]
    }

    fn set_channel(&mut self, i: usize, v: T) {
        self.data[i] = v;
    }

    fn raw(&self) -> (r: &[T]) {
        vstd::array::array_as_slice(&self.data)
    }
}

/// RGBA color pixels: red, green, blue, alpha, in that channel order.
#[derive(PartialEq, Eq, Clone, Debug, Copy, Hash)]
pub struct RGBA<T: Primitive> {
    pub data: [T; 4],
}

impl<T: Primitive> Pixel for RGBA<T> {
    type Subpixel = T;

    open spec fn channel_seq(self) -> Seq<T> {
        self.data@
    }

    open spec fn spec_channels() -> usize {
        4
    }

    proof fn lemma_channel_count(self) {
    }

    fn channels() -> (n: usize) {
        4
    }

    fn bits_per_pixel() -> (n: usize) {
        32
    }

    fn zero() -> (p: Self) {
        RGBA { data: [T::zero(), T::zero(), T::zero(), T::zero()] }
    }

    fn from_raw(data: &[T]) -> (p: Self) {
        let p = RGBA { data: [data[0], data[1], data[2], data[3]] };
        proof {
            assert(p.channel_seq() =~= data@);
        }
        p
    }

    fn channel(&self, i: usize) -> (v: T) {
        self.data[i]
    }

    fn set_channel(&mut self, i: usize, v: T) {
        self.data[i] = v;
    }

    fn raw(&self) -> (r: &[T]) {
        vstd::array::array_as_slice(&self.data)
    }
}

/// A single-bit pixel: one channel whose value is interpreted as a boolean
/// (zero is clear, anything else is set). It supports invert/and/or/xor in
/// place of arithmetic; the boolean operations always produce 0 or 1.
#[derive(PartialEq, Eq, Clone, Debug, Copy, Hash)]
pub struct Binary {
    pub data: [u8; 1],
}

impl Pixel for Binary {
    type Subpixel = u8;

    open spec fn channel_seq(self) -> Seq<u8> {
        self.data@
    }

    open spec fn spec_channels() -> usize {
        1
    }

    proof fn lemma_channel_count(self) {
    }

    fn channels() -> (n: usize) {
        1
    }

    fn bits_per_pixel() -> (n: usize) {
        8
    }

    fn zero() -> (p: Self) {
        Binary { data: [0] }
    }

    fn from_raw(data: &[u8]) -> (p: Self) {
        let p = Binary { data: [data[0]] };
        proof {
            assert(p.channel_seq() =~= data@);
        }
        p
    }

    fn channel(&self, i: usize) -> (v: u8) {
        self.data[i]
    }

    fn set_channel(&mut self, i: usize, v: u8) {
        self.data[i] = v;
    }

    fn raw(&self) -> (r: &[u8]) {
        vstd::array::array_as_slice(&self.data)
    }
}

/// Whether this single-bit value is set.
pub open spec fn bit_set(p: Binary) -> bool {
    p.data@[0] != 0
}

impl Binary {
    /// Builds a bit pixel holding 1 when `set` and 0 otherwise.
    pub fn from_bool(set: bool) -> (p: Binary)
        ensures
            bit_set(p) == set,
            p.data@[0] == (if set { 1u8 } else { 0u8 }),
    {
        Binary { data: [if set { 1 } else { 0 }] }
    }

    pub fn is_set(&self) -> (r: bool)
        ensures
            r == bit_set(*self),
    {
        self.data[0] != 0
    }

    /// Boolean inversion; the result holds 0 or 1.
    pub fn invert(self) -> (r: Binary)
        ensures
            bit_set(r) == !bit_set(self),
            r.data@[0] == (if bit_set(self) { 0u8 } else { 1u8 }),
    {
        Binary::from_bool(!self.is_set())
    }

    pub fn and(self, other: Binary) -> (r: Binary)
        ensures
            bit_set(r) == (bit_set(self) && bit_set(other)),
            r.data@[0] == (if bit_set(self) && bit_set(other) { 1u8 } else { 0u8 }),
    {
        Binary::from_bool(self.is_set() && other.is_set())
    }

    pub fn or(self, other: Binary) -> (r: Binary)
        ensures
            bit_set(r) == (bit_set(self) || bit_set(other)),
            r.data@[0] == (if bit_set(self) || bit_set(other) { 1u8 } else { 0u8 }),
    {
        Binary::from_bool(self.is_set() || other.is_set())
    }

    pub fn xor(self, other: Binary) -> (r: Binary)
        ensures
            bit_set(r) == (bit_set(self) != bit_set(other)),
            r.data@[0] == (if bit_set(self) != bit_set(other) { 1u8 } else { 0u8 }),
    {
        Binary::from_bool(self.is_set() != other.is_set())
    }
}

/// Marks pixel kinds that carry an alpha channel, exposing its index.
pub trait AlphaPixel: Pixel {
    spec fn spec_alpha_index() -> usize;

    proof fn lemma_alpha_index()
        ensures
            Self::spec_alpha_index() < Self::spec_channels(),
    ;

    fn alpha_index() -> (i: usize)
        ensures
            i == Self::spec_alpha_index(),
    ;
}

impl<T: Primitive> AlphaPixel for BGRA<T> {
    open spec fn spec_alpha_index() -> usize {
        3
    }

    proof fn lemma_alpha_index() {
    }

    fn alpha_index() -> (i: usize) {
        3
    }
}

impl<T: Primitive> AlphaPixel for RGBA<T> {
    open spec fn spec_alpha_index() -> usize {
        3
    }

    proof fn lemma_alpha_index() {
    }

    fn alpha_index() -> (i: usize) {
        3
    }
}

/// Marks pixel kinds with red, green and blue channels, exposing their
/// indices.
pub trait RGBPixel: Pixel {
    spec fn spec_red_index() -> usize;

    spec fn spec_green_index() -> usize;

    spec fn spec_blue_index() -> usize;

    proof fn lemma_rgb_indices()
        ensures
            Self::spec_red_index() < Self::spec_channels(),
            Self::spec_green_index() < Self::spec_channels(),
            Self::spec_blue_index() < Self::spec_channels(),
            Self::spec_red_index() != Self::spec_green_index(),
            Self::spec_green_index() != Self::spec_blue_index(),
            Self::spec_red_index() != Self::spec_blue_index(),
    ;

    fn red_index() -> (i: usize)
        ensures
            i == Self::spec_red_index(),
    ;

    fn green_index() -> (i: usize)
        ensures
            i == Self::spec_green_index(),
    ;

    fn blue_index() -> (i: usize)
        ensures
            i == Self::spec_blue_index(),
    ;
}

impl<T: Primitive> RGBPixel for BGR<T> {
    open spec fn spec_red_index() -> usize {
        2
    }

    open spec fn spec_green_index() -> usize {
        1
    }

    open spec fn spec_blue_index() -> usize {
        0
    }

    proof fn lemma_rgb_indices() {
    }

    fn red_index() -> (i: usize) {
        2
    }

    fn green_index() -> (i: usize) {
        1
    }

    fn blue_index() -> (i: usize) {
        0
    }
}

impl<T: Primitive> RGBPixel for BGRA<T> {
    open spec fn spec_red_index() -> usize {
        2
    }

    open spec fn spec_green_index() -> usize {
        1
    }

    open spec fn spec_blue_index() -> usize {
        0
    }

    proof fn lemma_rgb_indices() {
    }

    fn red_index() -> (i: usize) {
        2
    }

    fn green_index() -> (i: usize) {
        1
    }

    fn blue_index() -> (i: usize) {
        0
    }
}

impl<T: Primitive> RGBPixel for RGBA<T> {
    open spec fn spec_red_index() -> usize {
        0
    }

    open spec fn spec_green_index() -> usize {
        1
    }

    open spec fn spec_blue_index() -> usize {
        2
    }

    proof fn lemma_rgb_indices() {
    }

    fn red_index() -> (i: usize) {
        0
    }

    fn green_index() -> (i: usize) {
        1
    }

    fn blue_index() -> (i: usize) {
        2
    }
}

/// A BGRA color value with named components.
#[derive(PartialEq, Eq, Clone, Debug, Copy, Hash)]
pub struct Color<T: Primitive> {
    pub b: T,
    pub g: T,
    pub r: T,
    pub a: T,
}

impl<T: Primitive> Color<T> {
    pub fn new(b: T, g: T, r: T, a: T) -> (c: Color<T>)
        ensures
            c.b == b,
            c.g == g,
            c.r == r,
            c.a == a,
    {
        Color { b, g, r, a }
    }

    /// A gray color: all three color components equal, alpha at its maximum.
    pub fn from_gray(gray: T) -> (c: Color<T>)
        ensures
            c.b == gray,
            c.g == gray,
            c.r == gray,
            c.a.as_int() == T::spec_max(),
    {
        Color { b: gray, g: gray, r: gray, a: T::max_value() }
    }

    pub fn is_gray(&self) -> (r: bool)
        ensures
            r == (self.b.as_int() == self.g.as_int() && self.r.as_int() == self.g.as_int()),
    {
        self.b.value_eq(self.g) && self.r.value_eq(self.g)
    }
}

/// Subpixel values ordered by their integer interpretation.
pub open spec fn value_leq<T: Primitive>() -> spec_fn(T, T) -> bool {
    |a: T, b: T| a.as_int() <= b.as_int()
}

/// `value_leq` is a total order: subpixel values are totally ordered by
/// their integer interpretation.
pub proof fn lemma_value_leq_total_ordering<T: Primitive>()
    ensures
        vstd::relations::total_ordering(value_leq::<T>()),
{
    let leq = value_leq::<T>();
    assert forall|x: T| #[trigger] leq(x, x) by {
        assert(leq(x, x) == (x.as_int() <= x.as_int()));
    }
    assert forall|x: T, y: T| #[trigger] leq(x, y) && #[trigger] leq(y, x) implies x == y by {
        T::lemma_injective(x, y);
    }
    assert forall|x: T, y: T, z: T| #[trigger] leq(x, y) && #[trigger] leq(y, z) implies leq(
        x,
        z,
    ) by {
        assert(leq(x, z) == (x.as_int() <= z.as_int()));
    }
    assert forall|x: T, y: T| #[trigger] leq(x, y) || #[trigger] leq(y, x) by {
        assert(leq(x, y) == (x.as_int() <= y.as_int()));
        assert(leq(y, x) == (y.as_int() <= x.as_int()));
    }
}

/// Element-wise saturating addition: each channel sum is clamped into the
/// subpixel type's representable range instead of wrapping.
pub fn saturating_add<P: Pixel>(a: P, b: P) -> (r: P)
    ensures
        r.channel_seq().len() == P::spec_channels(),
        forall|c: int|
            0 <= c < P::spec_channels() ==> #[trigger] r.channel_seq()[c].as_int() == clamp_int(
                a.channel_seq()[c].as_int() + b.channel_seq()[c].as_int(),
                P::Subpixel::spec_min(),
                P::Subpixel::spec_max(),
            ),
{
    proof {
        a.lemma_channel_count();
        b.lemma_channel_count();
    }
    let n = P::channels();
    let mut r = P::zero();
    proof {
        r.lemma_channel_count();
    }
    let mut c: usize = 0;
    while c < n
        invariant
            n == P::spec_channels(),
            c <= n,
            a.channel_seq().len() == n,
            b.channel_seq().len() == n,
            r.channel_seq().len() == n,
            forall|k: int|
                0 <= k < c ==> #[trigger] r.channel_seq()[k].as_int() == clamp_int(
                    a.channel_seq()[k].as_int() + b.channel_seq()[k].as_int(),
                    P::Subpixel::spec_min(),
                    P::Subpixel::spec_max(),
                ),
        decreases n - c,
    {
        let va = a.channel(c);
        let vb = b.channel(c);
        proof {
            va.lemma_bounds();
            vb.lemma_bounds();
        }
        let vr = P::Subpixel::from_i64_clamped(va.to_i64() + vb.to_i64());
        r.set_channel(c, vr);
        c += 1;
    }
    r
}

/// Element-wise saturating subtraction: each channel difference is clamped
/// into the subpixel type's representable range.
pub fn saturating_sub<P: Pixel>(a: P, b: P) -> (r: P)
    ensures
        r.channel_seq().len() == P::spec_channels(),
        forall|c: int|
            0 <= c < P::spec_channels() ==> #[trigger] r.channel_seq()[c].as_int() == clamp_int(
                a.channel_seq()[c].as_int() - b.channel_seq()[c].as_int(),
                P::Subpixel::spec_min(),
                P::Subpixel::spec_max(),
            ),
{
    proof {
        a.lemma_channel_count();
        b.lemma_channel_count();
    }
    let n = P::channels();
    let mut r = P::zero();
    proof {
        r.lemma_channel_count();
    }
    let mut c: usize = 0;
    while c < n
        invariant
            n == P::spec_channels(),
            c <= n,
            a.channel_seq().len() == n,
            b.channel_seq().len() == n,
            r.channel_seq().len() == n,
            forall|k: int|
                0 <= k < c ==> #[trigger] r.channel_seq()[k].as_int() == clamp_int(
                    a.channel_seq()[k].as_int() - b.channel_seq()[k].as_int(),
                    P::Subpixel::spec_min(),
                    P::Subpixel::spec_max(),
                ),
        decreases n - c,
    {
        let va = a.channel(c);
        let vb = b.channel(c);
        proof {
            va.lemma_bounds();
            vb.lemma_bounds();
        }
        let vr = P::Subpixel::from_i64_clamped(va.to_i64() - vb.to_i64());
        r.set_channel(c, vr);
        c += 1;
    }
    r
}

/// Element-wise addition. The caller must ensure every channel sum is
/// representable; use `saturating_add` when it may not be.
pub fn pixel_add<P: Pixel>(a: P, b: P) -> (r: P)
    requires
        forall|c: int|
            0 <= c < P::spec_channels() ==> P::Subpixel::spec_min() <= #[trigger] a.channel_seq()[c].as_int()
                + b.channel_seq()[c].as_int() <= P::Subpixel::spec_max(),
    ensures
        r.channel_seq().len() == P::spec_channels(),
        forall|c: int|
            0 <= c < P::spec_channels() ==> #[trigger] r.channel_seq()[c].as_int()
                == a.channel_seq()[c].as_int() + b.channel_seq()[c].as_int(),
{
    proof {
        a.lemma_channel_count();
        b.lemma_channel_count();
    }
    let n = P::channels();
    let mut r = P::zero();
    proof {
        r.lemma_channel_count();
    }
    let mut c: usize = 0;
    while c < n
        invariant
            n == P::spec_channels(),
            c <= n,
            a.channel_seq().len() == n,
            b.channel_seq().len() == n,
            r.channel_seq().len() == n,
            forall|k: int|
                0 <= k < n ==> P::Subpixel::spec_min() <= #[trigger] a.channel_seq()[k].as_int()
                    + b.channel_seq()[k].as_int() <= P::Subpixel::spec_max(),
            forall|k: int|
                0 <= k < c ==> #[trigger] r.channel_seq()[k].as_int() == a.channel_seq()[k].as_int()
                    + b.channel_seq()[k].as_int(),
        decreases n - c,
    {
        let va = a.channel(c);
        let vb = b.channel(c);
        proof {
            va.lemma_bounds();
            vb.lemma_bounds();
        }
        let vr = P::Subpixel::from_i64(va.to_i64() + vb.to_i64());
        r.set_channel(c, vr);
        c += 1;
    }
    r
}

/// Element-wise subtraction. The caller must ensure every channel difference
/// is representable; use `saturating_sub` when it may not be.
pub fn pixel_sub<P: Pixel>(a: P, b: P) -> (r: P)
    requires
        forall|c: int|
            0 <= c < P::spec_channels() ==> P::Subpixel::spec_min() <= #[trigger] a.channel_seq()[c].as_int()
                - b.channel_seq()[c].as_int() <= P::Subpixel::spec_max(),
    ensures
        r.channel_seq().len() == P::spec_channels(),
        forall|c: int|
            0 <= c < P::spec_channels() ==> #[trigger] r.channel_seq()[c].as_int()
                == a.channel_seq()[c].as_int() - b.channel_seq()[c].as_int(),
{
    proof {
        a.lemma_channel_count();
        b.lemma_channel_count();
    }
    let n = P::channels();
    let mut r = P::zero();
    proof {
        r.lemma_channel_count();
    }
    let mut c: usize = 0;
    while c < n
        invariant
            n == P::spec_channels(),
            c <= n,
            a.channel_seq().len() == n,
            b.channel_seq().len() == n,
            r.channel_seq().len() == n,
            forall|k: int|
                0 <= k < n ==> P::Subpixel::spec_min() <= #[trigger] a.channel_seq()[k].as_int()
                    - b.channel_seq()[k].as_int() <= P::Subpixel::spec_max(),
            forall|k: int|
                0 <= k < c ==> #[trigger] r.channel_seq()[k].as_int() == a.channel_seq()[k].as_int()
                    - b.channel_seq()[k].as_int(),
        decreases n - c,
    {
        let va = a.channel(c);
        let vb = b.channel(c);
        proof {
            va.lemma_bounds();
            vb.lemma_bounds();
        }
        let vr = P::Subpixel::from_i64(va.to_i64() - vb.to_i64());
        r.set_channel(c, vr);
        c += 1;
    }
    r
}

/// Element-wise multiplication. The caller must ensure every channel product
/// is representable.
pub fn pixel_mul<P: Pixel>(a: P, b: P) -> (r: P)
    requires
        forall|c: int|
            0 <= c < P::spec_channels() ==> P::Subpixel::spec_min() <= #[trigger] a.channel_seq()[c].as_int()
                * b.channel_seq()[c].as_int() <= P::Subpixel::spec_max(),
    ensures
        r.channel_seq().len() == P::spec_channels(),
        forall|c: int|
            0 <= c < P::spec_channels() ==> #[trigger] r.channel_seq()[c].as_int()
                == a.channel_seq()[c].as_int() * b.channel_seq()[c].as_int(),
{
    proof {
        a.lemma_channel_count();
        b.lemma_channel_count();
    }
    let n = P::channels();
    let mut r = P::zero();
    proof {
        r.lemma_channel_count();
    }
    let mut c: usize = 0;
    while c < n
        invariant
            n == P::spec_channels(),
            c <= n,
            a.channel_seq().len() == n,
            b.channel_seq().len() == n,
            r.channel_seq().len() == n,
            forall|k: int|
                0 <= k < n ==> P::Subpixel::spec_min() <= #[trigger] a.channel_seq()[k].as_int()
                    * b.channel_seq()[k].as_int() <= P::Subpixel::spec_max(),
            forall|k: int|
                0 <= k < c ==> #[trigger] r.channel_seq()[k].as_int() == a.channel_seq()[k].as_int()
                    * b.channel_seq()[k].as_int(),
        decreases n - c,
    {
        let va = a.channel(c);
        let vb = b.channel(c);
        proof {
            va.lemma_bounds();
            vb.lemma_bounds();
            assert(va.as_int() * vb.as_int() <= 0x100_0000 * 0x100_0000int && 0 <= va.as_int()
                * vb.as_int()) by (nonlinear_arith)
                requires
                    0 <= va.as_int() <= 0x100_0000,
                    0 <= vb.as_int() <= 0x100_0000,
            ;
        }
        let vr = P::Subpixel::from_i64(va.to_i64() * vb.to_i64());
        r.set_channel(c, vr);
        c += 1;
    }
    r
}

/// Adds a scalar to every channel, clamping the result into the subpixel
/// range (values that would exceed the maximum saturate to the maximum).
pub fn add_scalar<P: Pixel>(a: P, v: P::Subpixel) -> (r: P)
    ensures
        r.channel_seq().len() == P::spec_channels(),
        forall|c: int|
            0 <= c < P::spec_channels() ==> #[trigger] r.channel_seq()[c].as_int() == clamp_int(
                a.channel_seq()[c].as_int() + v.as_int(),
                P::Subpixel::spec_min(),
                P::Subpixel::spec_max(),
            ),
{
    proof {
        a.lemma_channel_count();
    }
    let n = P::channels();
    let mut r = P::zero();
    proof {
        r.lemma_channel_count();
    }
    let mut c: usize = 0;
    while c < n
        invariant
            n == P::spec_channels(),
            c <= n,
            a.channel_seq().len() == n,
            r.channel_seq().len() == n,
            forall|k: int|
                0 <= k < c ==> #[trigger] r.channel_seq()[k].as_int() == clamp_int(
                    a.channel_seq()[k].as_int() + v.as_int(),
                    P::Subpixel::spec_min(),
                    P::Subpixel::spec_max(),
                ),
        decreases n - c,
    {
        let va = a.channel(c);
        proof {
            va.lemma_bounds();
            v.lemma_bounds();
        }
        let vr = P::Subpixel::from_i64_clamped(va.to_i64() + v.to_i64());
        r.set_channel(c, vr);
        c += 1;
    }
    r
}

/// Subtracts a scalar from every channel, clamping the result into the
/// subpixel range (values that would fall below the minimum saturate to it).
pub fn sub_scalar<P: Pixel>(a: P, v: P::Subpixel) -> (r: P)
    ensures
        r.channel_seq().len() == P::spec_channels(),
        forall|c: int|
            0 <= c < P::spec_channels() ==> #[trigger] r.channel_seq()[c].as_int() == clamp_int(
                a.channel_seq()[c].as_int() - v.as_int(),
                P::Subpixel::spec_min(),
                P::Subpixel::spec_max(),
            ),
{
    proof {
        a.lemma_channel_count();
    }
    let n = P::channels();
    let mut r = P::zero();
    proof {
        r.lemma_channel_count();
    }
    let mut c: usize = 0;
    while c < n
        invariant
            n == P::spec_channels(),
            c <= n,
            a.channel_seq().len() == n,
            r.channel_seq().len() == n,
            forall|k: int|
                0 <= k < c ==> #[trigger] r.channel_seq()[k].as_int() == clamp_int(
                    a.channel_seq()[k].as_int() - v.as_int(),
                    P::Subpixel::spec_min(),
                    P::Subpixel::spec_max(),
                ),
        decreases n - c,
    {
        let va = a.channel(c);
        proof {
            va.lemma_bounds();
            v.lemma_bounds();
        }
        let vr = P::Subpixel::from_i64_clamped(va.to_i64() - v.to_i64());
        r.set_channel(c, vr);
        c += 1;
    }
    r
}

/// Multiplies every channel by a scalar, clamping the result into the
/// subpixel range.
pub fn mul_scalar<P: Pixel>(a: P, v: P::Subpixel) -> (r: P)
    ensures
        r.channel_seq().len() == P::spec_channels(),
        forall|c: int|
            0 <= c < P::spec_channels() ==> #[trigger] r.channel_seq()[c].as_int() == clamp_int(
                a.channel_seq()[c].as_int() * v.as_int(),
                P::Subpixel::spec_min(),
                P::Subpixel::spec_max(),
            ),
{
    proof {
        a.lemma_channel_count();
    }
    let n = P::channels();
    let mut r = P::zero();
    proof {
        r.lemma_channel_count();
    }
    let mut c: usize = 0;
    while c < n
        invariant
            n == P::spec_channels(),
            c <= n,
            a.channel_seq().len() == n,
            r.channel_seq().len() == n,
            forall|k: int|
                0 <= k < c ==> #[trigger] r.channel_seq()[k].as_int() == clamp_int(
                    a.channel_seq()[k].as_int() * v.as_int(),
                    P::Subpixel::spec_min(),
                    P::Subpixel::spec_max(),
                ),
        decreases n - c,
    {
        let va = a.channel(c);
        proof {
            va.lemma_bounds();
            v.lemma_bounds();
            assert(va.as_int() * v.as_int() <= 0x100_0000 * 0x100_0000int && 0 <= va.as_int()
                * v.as_int()) by (nonlinear_arith)
                requires
                    0 <= va.as_int() <= 0x100_0000,
                    0 <= v.as_int() <= 0x100_0000,
            ;
        }
        let vr = P::Subpixel::from_i64_clamped(va.to_i64() * v.to_i64());
        r.set_channel(c, vr);
        c += 1;
    }
    r
}

/// Gray pixel literal.
pub fn gray<T: Primitive>(x: T) -> (p: Gray<T>)
    ensures
        p.channel_seq() =~= seq![x],
{
    let t = [x];
    let p = Gray::from_raw(vstd::array::array_as_slice(&t));
    proof {
        assert(p.channel_seq() =~= seq![x]);
    }
    p
}

/// BGR pixel literal.
pub fn bgr<T: Primitive>(b: T, g: T, r: T) -> (p: BGR<T>)
    ensures
        p.channel_seq() =~= seq![b, g, r],
{
    let t = [b, g, r];
    let p = BGR::from_raw(vstd::array::array_as_slice(&t));
    proof {
        assert(p.channel_seq() =~= seq![b, g, r]);
    }
    p
}

/// BGRA pixel literal.
pub fn bgra<T: Primitive>(b: T, g: T, r: T, a: T) -> (p: BGRA<T>)
    ensures
        p.channel_seq() =~= seq![b, g, r, a],
{
    let t = [b, g, r, a];
    let p = BGRA::from_raw(vstd::array::array_as_slice(&t));
    proof {
        assert(p.channel_seq() =~= seq![b, g, r, a]);
    }
    p
}

} // verus!

