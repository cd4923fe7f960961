use imgcore::image::{AlphaImage, Image, ImageBGRA, ImageError, ImageGray};
use imgcore::pixel::{gray, pixel_add, Gray, Pixel, BGRA};

fn gray_image(w: usize, h: usize, vals: &[u8]) -> ImageGray {
    let pixels: Vec<Gray<u8>> = vals.iter().map(|&v| gray(v)).collect();
    Image::from_raw(w, h, &pixels).unwrap()
}

#[test]
fn test_alloc() {
    let img = ImageBGRA::new(100, 200);
    assert_eq!(img.channels(), 4);
    assert_eq!(img.bits_per_pixel(), 4 * 8);
    assert_eq!(img.pixels().len(), 100 * 200);
    assert_eq!(img.raw().len(), 100 * 200 * 4);
    assert_eq!(img.pitch(), 100 * 4);
    assert_eq!(img.size(), (100, 200));
    assert_eq!(img.stride(), 100);
    assert_eq!(img.bytes_per_row(), 400);
}

#[test]
fn test_iter() {
    let mut img = ImageBGRA::new(10, 5);
    for y in 0..img.height() {
        for x in 0..img.width() {
            img.put(x, y, BGRA::<u8> { data: [128, 128, 0, 0] });
        }
    }

    for (_, _, p) in img.iter() {
        assert_eq!(p, BGRA::<u8> { data: [128, 128, 0, 0] });
    }
}

#[test]
fn test_traits() {
    let mut img = ImageBGRA::new(10, 5);
    for y in 0..img.height() {
        for x in 0..img.width() {
            let p = img.get(x, y);
            img.put(x, y, pixel_add(p, BGRA::<u8> { data: [128, 128, 0, 0] }));
        }
    }
    assert_eq!(img.get(9, 4).raw(), &[128, 128, 0, 0]);
}

#[test]
fn test_iter_row_major_order() {
    let img = gray_image(3, 2, &[1, 2, 3, 4, 5, 6]);
    let cells = img.iter();
    assert_eq!(cells.len(), 6);
    let expected = [
        (0usize, 0usize, 1u8),
        (1, 0, 2),
        (2, 0, 3),
        (0, 1, 4),
        (1, 1, 5),
        (2, 1, 6),
    ];
    for (k, (x, y, p)) in cells.into_iter().enumerate() {
        assert_eq!((x, y, p.raw()[0]), expected[k]);
    }
}

#[test]
fn test_fill_then_read_back() {
    let mut img = ImageGray::new(4, 3);
    img.fill(&gray(77u8));
    for (_, _, p) in img.iter() {
        assert_eq!(p, gray(77u8));
    }
    img.zero();
    for (_, _, p) in img.iter() {
        assert_eq!(p, gray(0u8));
    }
}

#[test]
fn test_mutation_visible_to_iter() {
    let mut img = gray_image(2, 2, &[1, 2, 3, 4]);
    img.put(1, 0, gray(9u8));
    let cells = img.iter();
    assert_eq!(cells[1], (1, 0, gray(9u8)));
    assert_eq!(cells[0], (0, 0, gray(1u8)));
    assert_eq!(cells[2], (0, 1, gray(3u8)));
}

#[test]
fn test_fill_channel() {
    let mut img = ImageBGRA::new(2, 2);
    img.fill(&BGRA::<u8> { data: [1, 2, 3, 4] });
    assert!(img.fill_channel(1, 9).is_ok());
    for (_, _, p) in img.iter() {
        assert_eq!(p.raw(), &[1, 9, 3, 4]);
    }
    assert_eq!(img.fill_channel(4, 0), Err(ImageError::OutOfRegion));
}

#[test]
fn test_set_alpha() {
    let mut img = ImageBGRA::new(2, 2);
    img.fill(&BGRA::<u8> { data: [1, 2, 3, 4] });
    img.set_alpha();
    for (_, _, p) in img.iter() {
        assert_eq!(p.raw(), &[1, 2, 3, 255]);
    }
}

#[test]
fn test_from_raw_dimension_mismatch() {
    let pixels = vec![gray(1u8), gray(2u8), gray(3u8)];
    let r = ImageGray::from_raw(2, 2, &pixels);
    assert!(matches!(r, Err(ImageError::InvalidImage)));
    let ok = ImageGray::from_raw(3, 1, &pixels).unwrap();
    assert_eq!(ok.width(), 3);
    assert_eq!(ok.height(), 1);
    assert_eq!(ok.get(2, 0), gray(3u8));
}

#[test]
fn test_row() {
    let img = gray_image(3, 2, &[1, 2, 3, 4, 5, 6]);
    let row = img.row(1).unwrap();
    assert_eq!(row, &[gray(4u8), gray(5u8), gray(6u8)]);
    assert!(matches!(img.row(2), Err(ImageError::OutOfRegion)));
}

#[test]
fn test_clone_is_deep() {
    let img = gray_image(2, 1, &[1, 2]);
    let mut copy = img.clone();
    copy.put(0, 0, gray(9u8));
    assert_eq!(img.get(0, 0), gray(1u8));
    assert_eq!(copy.get(0, 0), gray(9u8));
}

#[test]
fn test_pixels_mut() {
    let mut img = gray_image(2, 2, &[1, 2, 3, 4]);
    let buf = img.pixels_mut();
    buf[3] = gray(9u8);
    assert_eq!(img.get(1, 1), gray(9u8));
    assert_eq!(img.pixels(), &[gray(1u8), gray(2u8), gray(3u8), gray(9u8)]);
}

#[test]
fn test_raw_layout() {
    let mut img = ImageBGRA::new(2, 1);
    img.put(0, 0, BGRA::<u8> { data: [1, 2, 3, 4] });
    img.put(1, 0, BGRA::<u8> { data: [5, 6, 7, 8] });
    assert_eq!(img.raw(), vec![1, 2, 3, 4, 5, 6, 7, 8]);
}
