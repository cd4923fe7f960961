use imgcore::image::{Image, ImageBinary};
use imgcore::pixel::Binary;

fn bin_image(vals: &[u8]) -> ImageBinary {
    let pixels: Vec<Binary> = vals.iter().map(|&v| Binary { data: [v] }).collect();
    Image::from_raw(3, 3, &pixels).unwrap()
}

#[test]
fn test_binary_not() {
    let mut img = bin_image(&[
        1, 1, 1, //
        0, 0, 0, //
        1, 0, 1,
    ]);
    img = img.not();
    assert_eq!(
        img,
        bin_image(&[
            0, 0, 0, //
            1, 1, 1, //
            0, 1, 0,
        ])
    );
}

#[test]
fn test_binary_and() {
    let img1 = bin_image(&[
        1, 1, 1, //
        0, 1, 0, //
        1, 0, 1,
    ]);
    let img2 = bin_image(&[
        0, 0, 0, //
        1, 1, 1, //
        0, 1, 0,
    ]);
    assert_eq!(
        img1.and(img2),
        bin_image(&[
            0, 0, 0, //
            0, 1, 0, //
            0, 0, 0,
        ])
    );
}

#[test]
fn test_binary_and_assign() {
    let mut img = bin_image(&[
        0, 1, 0, //
        1, 1, 1, //
        0, 0, 0,
    ]);
    img.and_assign(bin_image(&[
        0, 0, 0, //
        0, 1, 0, //
        0, 1, 0,
    ]));
    assert_eq!(
        img,
        bin_image(&[
            0, 0, 0, //
            0, 1, 0, //
            0, 0, 0,
        ])
    );
}

#[test]
fn test_binary_or() {
    let img1 = bin_image(&[
        1, 1, 1, //
        0, 1, 0, //
        1, 0, 0,
    ]);
    let img2 = bin_image(&[
        0, 0, 0, //
        1, 1, 1, //
        0, 1, 0,
    ]);
    assert_eq!(
        img1.or(img2),
        bin_image(&[
            1, 1, 1, //
            1, 1, 1, //
            1, 1, 0,
        ])
    );
}

#[test]
fn test_binary_or_assign() {
    let mut img = bin_image(&[
        0, 1, 0, //
        1, 1, 1, //
        0, 0, 0,
    ]);
    img.or_assign(bin_image(&[
        0, 0, 0, //
        0, 1, 0, //
        0, 1, 0,
    ]));
    assert_eq!(
        img,
        bin_image(&[
            0, 1, 0, //
            1, 1, 1, //
            0, 1, 0,
        ])
    );
}

#[test]
fn test_binary_xor() {
    let img1 = bin_image(&[
        1, 1, 1, //
        0, 1, 0, //
        1, 0, 0,
    ]);
    let img2 = bin_image(&[
        0, 0, 1, //
        1, 1, 1, //
        0, 1, 0,
    ]);
    assert_eq!(
        img1.xor(img2),
        bin_image(&[
            1, 1, 0, //
            1, 0, 1, //
            1, 1, 0,
        ])
    );
}

#[test]
fn test_binary_xor_assign() {
    let mut img = bin_image(&[
        0, 1, 0, //
        1, 1, 1, //
        0, 0, 0,
    ]);
    img.xor_assign(bin_image(&[
        0, 0, 0, //
        0, 1, 0, //
        0, 1, 0,
    ]));
    assert_eq!(
        img,
        bin_image(&[
            0, 1, 0, //
            1, 0, 1, //
            0, 1, 0,
        ])
    );
}

#[test]
fn test_binary_invert() {
    let mut img = bin_image(&[
        0, 1, 0, //
        1, 1, 1, //
        0, 1, 0,
    ]);
    img.invert();
    assert_eq!(
        img,
        bin_image(&[
            1, 0, 1, //
            0, 0, 0, //
            1, 0, 1,
        ])
    );
}

#[test]
fn test_binary_double_invert_roundtrip() {
    let img = bin_image(&[
        0, 1, 0, //
        1, 1, 1, //
        0, 1, 0,
    ]);
    assert_eq!(img.clone().not().not(), img);
}
