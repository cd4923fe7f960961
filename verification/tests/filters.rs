use imgcore::image::{Image, ImageError, ImageGray};
use imgcore::op::blur::{BoxFilter, MedianFilter};
use imgcore::op::filter::{GeneralKernel, Kernel};
use imgcore::op::sobel::Sobel;
use imgcore::pixel::{bgr, gray, Gray, BGR};

fn gray_image(w: usize, h: usize, vals: &[u8]) -> ImageGray {
    let pixels: Vec<Gray<u8>> = vals.iter().map(|&v| gray(v)).collect();
    Image::from_raw(w, h, &pixels).unwrap()
}

#[test]
fn test_general_kernel_new_rejects_length_mismatch() {
    let r = GeneralKernel::new(2, 2, &[1, 2, 3]);
    assert!(matches!(r, Err(ImageError::InvalidImage)));
    let k = GeneralKernel::new(1, 3, &[1, 2, 3]).unwrap();
    assert_eq!(k.size(), (1, 3));
    assert_eq!(k.weight(0, 2), 3);
}

#[test]
fn test_convolution_identity_kernel() {
    let img = gray_image(
        3,
        3,
        &[
            1, 2, 3, //
            4, 5, 6, //
            7, 8, 9,
        ],
    );
    let kern = GeneralKernel::new(1, 1, &[1]).unwrap();
    let out = kern.filter(&img);
    assert_eq!(out, img);
}

#[test]
fn test_convolution_column_sum_kernel() {
    let img = gray_image(
        3,
        3,
        &[
            1, 2, 3, //
            4, 5, 6, //
            7, 8, 9,
        ],
    );
    // Sums the column right of each cell, over three rows (Extend sampling).
    let kern = GeneralKernel::new(3, 3, &[0, 0, 1, 0, 0, 1, 0, 0, 1]).unwrap();
    let out = kern.filter(&img);
    assert_eq!(out.get(1, 1), gray(18u8));
    assert_eq!(out.get(0, 0), gray(9u8));
    assert_eq!(out.get(2, 2), gray(24u8));
}

#[test]
fn test_convolution_clamps_to_range() {
    let img = gray_image(3, 1, &[100, 200, 100]);
    // Doubles every cell; 200 * 2 saturates at the subpixel maximum.
    let kern = GeneralKernel::new(1, 1, &[2]).unwrap();
    let out = kern.filter(&img);
    assert_eq!(out.get(0, 0), gray(200u8));
    assert_eq!(out.get(1, 0), gray(255u8));
    // A negative response clamps to the minimum instead of wrapping.
    let neg = GeneralKernel::new(1, 1, &[-1]).unwrap();
    let out2 = neg.filter(&img);
    assert_eq!(out2.get(0, 0), gray(0u8));
}

#[test]
fn test_box_filter() {
    let img = gray_image(
        3,
        3,
        &[
            1, 2, 3, //
            4, 5, 6, //
            7, 8, 9,
        ],
    );
    let filter = BoxFilter::new(3, 3).unwrap();
    let out = filter.filter(&img);
    assert_eq!(out.get(1, 1), gray(5u8));
    assert_eq!(out.get(0, 0), gray(2u8));
}

#[test]
fn test_box_filter_constant_image_unchanged() {
    let img = gray_image(4, 4, &[7; 16]);
    let filter = BoxFilter::new(3, 3).unwrap();
    let out = filter.filter(&img);
    assert_eq!(out, img);
}

#[test]
fn test_box_filter_rejects_even_size() {
    assert!(matches!(BoxFilter::new(2, 3), Err(ImageError::InvalidImage)));
    assert!(matches!(BoxFilter::new(3, 4), Err(ImageError::InvalidImage)));
    assert!(BoxFilter::new(3, 3).is_ok());
}

#[test]
fn test_median_filter() {
    let img = gray_image(
        3,
        3,
        &[
            1, 2, 3, //
            4, 5, 6, //
            7, 8, 9,
        ],
    );
    let filter = MedianFilter::new(3, 3).unwrap();
    let out = filter.filter(&img);
    // The center window holds all nine values; the median is 5.
    assert_eq!(out.get(1, 1), gray(5u8));
    // The corner window holds only the four in-image values [1, 2, 4, 5];
    // index 4 / 2 of the sorted list picks 4.
    assert_eq!(out.get(0, 0), gray(4u8));
}

#[test]
fn test_median_filter_single_cell_window() {
    let img = gray_image(2, 2, &[9, 1, 5, 3]);
    let filter = MedianFilter::new(1, 1).unwrap();
    let out = filter.filter(&img);
    assert_eq!(out, img);
}

#[test]
fn test_median_filter_rejects_even_size() {
    assert!(matches!(MedianFilter::new(4, 3), Err(ImageError::InvalidImage)));
    assert!(MedianFilter::new(5, 5).is_ok());
}

#[test]
fn test_sobel_filter() {
    let img = gray_image(
        3,
        3,
        &[
            1, 2, 3, //
            4, 5, 6, //
            7, 8, 9,
        ],
    );
    let out = Sobel::new().filter(&img);
    // Center: horizontal response 8, vertical response 24, combined 32.
    assert_eq!(out.get(1, 1), gray(32u8));
    // Corner (0, 0): responses 4 and 12 under Extend sampling.
    assert_eq!(out.get(0, 0), gray(16u8));
}

#[test]
fn test_sobel_filter_saturates() {
    let img = gray_image(
        3,
        3,
        &[
            0, 0, 0, //
            0, 0, 0, //
            255, 255, 255,
        ],
    );
    let out = Sobel::new().filter(&img);
    // The vertical response at the center is 1020: it clamps to 255 and the
    // saturating combination keeps it there instead of wrapping.
    assert_eq!(out.get(1, 1), gray(255u8));
}

#[test]
fn test_box_filter_multichannel() {
    let pixels = vec![bgr(3u8, 6u8, 9u8), bgr(6u8, 9u8, 12u8)];
    let img: Image<BGR<u8>> = Image::from_raw(2, 1, &pixels).unwrap();
    let out = BoxFilter::new(3, 3).unwrap().filter(&img);
    // Every channel averages independently over the Extend-sampled window.
    assert_eq!(out.get(0, 0), bgr(4u8, 7u8, 10u8));
    assert_eq!(out.get(1, 0), bgr(5u8, 8u8, 11u8));
}

#[test]
fn test_box_filter_u16_subpixels() {
    let pixels = vec![gray(1000u16); 9];
    let img: Image<Gray<u16>> = Image::from_raw(3, 3, &pixels).unwrap();
    let out = BoxFilter::new(3, 3).unwrap().filter(&img);
    assert_eq!(out, img);
}
