use imgcore::eye::{Eye, Mask};
use imgcore::geo::Recti;
use imgcore::image::{Image, ImageGray};
use imgcore::pixel::{gray, Gray};

fn gray_image(w: usize, h: usize, vals: &[u8]) -> ImageGray {
    let pixels: Vec<Gray<u8>> = vals.iter().map(|&v| gray(v)).collect();
    Image::from_raw(w, h, &pixels).unwrap()
}

#[test]
fn test_eye_look() {
    let img = gray_image(
        3,
        3,
        &[
            1, 2, 3, //
            4, 5, 6, //
            7, 8, 9,
        ],
    );
    let eye: Eye<Gray<u8>> = Eye::new(0, 0);
    assert_eq!(eye.look(&img), gray(1u8));
    assert_eq!(eye.x(400).constant(gray(15u8)).look(&img), gray(15u8));
    assert_eq!(eye.constant(gray(15u8)).look(&img), gray(1u8));
    assert_eq!(eye.x(-1).y(1).mirror().look(&img), gray(5u8));
    assert_eq!(eye.extend().x(1).y(-100).look(&img), gray(2u8));
    assert_eq!(eye.extend().x(-100).y(-100).look(&img), gray(1u8));
    assert_eq!(eye.extend().x(100).y(100).look(&img), gray(9u8));
}

#[test]
fn test_eye_extend_corner() {
    let img = gray_image(
        3,
        3,
        &[
            1, 2, 3, //
            4, 5, 6, //
            7, 8, 9,
        ],
    );
    let eye: Eye<Gray<u8>> = Eye::new(100, 100);
    assert_eq!(eye.look(&img), gray(9u8));
}

#[test]
fn test_eye_mirror_wraps_from_far_edge() {
    let img = gray_image(
        3,
        3,
        &[
            1, 2, 3, //
            4, 5, 6, //
            7, 8, 9,
        ],
    );
    // x = 4 > 3 wraps to 3 - (4 % 3) = 2; y stays in bounds.
    let eye: Eye<Gray<u8>> = Eye::new(4, 1).mirror();
    assert_eq!(eye.look(&img), gray(6u8));
    // negative coordinates reflect through zero: (-2, -1) -> (2, 1).
    let eye2: Eye<Gray<u8>> = Eye::new(-2, -1).mirror();
    assert_eq!(eye2.look(&img), gray(6u8));
}

#[test]
fn test_eye_default_policy_is_extend() {
    let img = gray_image(2, 1, &[3, 4]);
    // Out of bounds with the default (unspecified) policy clamps to the edge.
    let eye: Eye<Gray<u8>> = Eye::new(5, 0);
    assert_eq!(eye.look(&img), gray(4u8));
}

#[test]
fn test_mask_rect() {
    let r = Recti { x: 1, y: 2, width: 3, height: 2 };
    assert!(r.is_valid(1, 2));
    assert!(r.is_valid(3, 3));
    assert!(!r.is_valid(0, 2));
    assert!(!r.is_valid(4, 2));
    assert!(!r.is_valid(1, 4));
}
