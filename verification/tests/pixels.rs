use imgcore::pixel::{
    add_scalar, bgr, bgra, gray, mul_scalar, pixel_add, pixel_mul, pixel_sub, saturating_add,
    saturating_sub, sub_scalar, AlphaPixel, Binary, Color, Gray, Pixel, Primitive, RGBPixel, BGR,
    BGRA, RGBA,
};

#[test]
fn test_pixel_size() {
    assert_eq!(std::mem::size_of::<BGRA<u8>>(), 4);
    assert_eq!(std::mem::size_of::<BGR<u8>>(), 3);
    assert_eq!(std::mem::size_of::<Gray<u8>>(), 1);
    assert_eq!(std::mem::size_of::<RGBA<u8>>(), 4);
    assert_eq!(std::mem::size_of::<Binary>(), 1);
    assert_eq!(std::mem::size_of::<Gray<u16>>(), 2 * std::mem::size_of::<u8>());
}

#[test]
fn test_pixel_channels_and_bits() {
    assert_eq!(Gray::<u8>::channels(), 1);
    assert_eq!(BGR::<u8>::channels(), 3);
    assert_eq!(BGRA::<u8>::channels(), 4);
    assert_eq!(RGBA::<u8>::channels(), 4);
    assert_eq!(Gray::<u8>::bits_per_pixel(), 8);
    assert_eq!(BGR::<u8>::bits_per_pixel(), 24);
    assert_eq!(BGRA::<u8>::bits_per_pixel(), 32);
}

#[test]
fn test_pixel_from_raw_and_channel_access() {
    let p = BGR::<u8>::from_raw(&[10, 20, 30]);
    assert_eq!(p.channel(0), 10);
    assert_eq!(p.channel(1), 20);
    assert_eq!(p.channel(2), 30);
    assert_eq!(p.raw(), &[10, 20, 30]);
    let mut q = p;
    q.set_channel(1, 99);
    assert_eq!(q.raw(), &[10, 99, 30]);
    assert_eq!(p.raw(), &[10, 20, 30]);
    assert_eq!(Gray::<u8>::zero().raw(), &[0]);
}

#[test]
fn test_saturating_add_clamps_at_max() {
    let a = bgr(200u8, 100u8, 0u8);
    let b = bgr(100u8, 100u8, 5u8);
    let r = saturating_add(a, b);
    assert_eq!(r.raw(), &[255, 200, 5]);
}

#[test]
fn test_saturating_sub_clamps_at_min() {
    let a = gray(10u8);
    let b = gray(30u8);
    assert_eq!(saturating_sub(a, b).raw(), &[0]);
    assert_eq!(saturating_sub(b, a).raw(), &[20]);
}

#[test]
fn test_saturating_add_u16() {
    let a = gray(65000u16);
    let b = gray(1000u16);
    assert_eq!(saturating_add(a, b).raw(), &[65535]);
}

#[test]
fn test_pixel_elementwise_ops() {
    let a = bgr(10u8, 20u8, 30u8);
    let b = bgr(1u8, 2u8, 3u8);
    assert_eq!(pixel_add(a, b).raw(), &[11, 22, 33]);
    assert_eq!(pixel_sub(a, b).raw(), &[9, 18, 27]);
    assert_eq!(pixel_mul(a, b).raw(), &[10, 40, 90]);
}

#[test]
fn test_scalar_ops_clamp() {
    let a = bgr(200u8, 10u8, 0u8);
    assert_eq!(add_scalar(a, 100u8).raw(), &[255, 110, 100]);
    assert_eq!(sub_scalar(a, 20u8).raw(), &[180, 0, 0]);
    assert_eq!(mul_scalar(a, 2u8).raw(), &[255, 20, 0]);
}

#[test]
fn test_alpha_and_rgb_indices() {
    assert_eq!(BGRA::<u8>::alpha_index(), 3);
    assert_eq!(RGBA::<u8>::alpha_index(), 3);
    assert_eq!(BGR::<u8>::red_index(), 2);
    assert_eq!(BGR::<u8>::green_index(), 1);
    assert_eq!(BGR::<u8>::blue_index(), 0);
    assert_eq!(RGBA::<u8>::red_index(), 0);
    assert_eq!(RGBA::<u8>::blue_index(), 2);
    assert_eq!(BGRA::<u8>::red_index(), 2);
}

#[test]
fn test_color() {
    let c = Color::new(1u8, 2u8, 3u8, 4u8);
    assert_eq!((c.b, c.g, c.r, c.a), (1, 2, 3, 4));
    assert!(!c.is_gray());
    let g = Color::from_gray(7u8);
    assert!(g.is_gray());
    assert_eq!(g.a, 255);
}

#[test]
fn test_pixel_literals() {
    assert_eq!(gray(9u8).raw(), &[9]);
    assert_eq!(bgr(1u8, 2u8, 3u8).raw(), &[1, 2, 3]);
    assert_eq!(bgra(1u8, 2u8, 3u8, 4u8).raw(), &[1, 2, 3, 4]);
}

#[test]
fn test_binary_pixel_bool_ops() {
    let t = Binary::from_bool(true);
    let f = Binary::from_bool(false);
    assert!(t.is_set());
    assert!(!f.is_set());
    assert_eq!(t.invert(), f);
    assert_eq!(f.invert(), t);
    assert_eq!(t.and(f), f);
    assert_eq!(t.and(t), t);
    assert_eq!(t.or(f), t);
    assert_eq!(f.or(f), f);
    assert_eq!(t.xor(t), f);
    assert_eq!(t.xor(f), t);
    assert_eq!(t.invert().invert(), t);
}

#[test]
fn test_primitive_clip() {
    assert_eq!(imgcore::math::utils::clip(5u8, 10u8, 20u8), 10);
    assert_eq!(imgcore::math::utils::clip(25u8, 10u8, 20u8), 20);
    assert_eq!(imgcore::math::utils::clip(15u8, 10u8, 20u8), 15);
}
