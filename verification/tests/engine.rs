//! Behavioral tests of the raster transform engine: resampling, duotone
//! mapping, and the upfront validation of dimensions and buffer lengths.

use thumbnail::thumbnail::Thumbnail;
use thumbnail::TransformError;

fn image_2x2() -> Thumbnail {
    // (255,0,0) (0,255,0)
    // (0,0,255) (255,255,255)
    let data = vec![255, 0, 0, 0, 255, 0, 0, 0, 255, 255, 255, 255];
    Thumbnail::from_byte_arr(2, 2, data).unwrap()
}

#[test]
fn new_is_zero_filled() {
    let t = Thumbnail::new(3, 2);
    assert_eq!(t.get_bytes(), &[0u8; 18][..]);
}

#[test]
fn from_byte_arr_accepts_exact_buffer() {
    let data = vec![7u8; 2 * 5 * 3];
    let t = Thumbnail::from_byte_arr(2, 5, data.clone()).unwrap();
    assert_eq!(t.get_bytes(), &data[..]);
}

#[test]
fn from_byte_arr_rejects_zero_dimension() {
    assert_eq!(
        Thumbnail::from_byte_arr(0, 4, vec![0u8; 12]).unwrap_err(),
        TransformError::InvalidDimension
    );
    assert_eq!(
        Thumbnail::from_byte_arr(4, 0, vec![0u8; 12]).unwrap_err(),
        TransformError::InvalidDimension
    );
}

#[test]
fn from_byte_arr_rejects_wrong_length() {
    assert_eq!(
        Thumbnail::from_byte_arr(2, 2, vec![0u8; 11]).unwrap_err(),
        TransformError::MalformedBuffer
    );
    assert_eq!(
        Thumbnail::from_byte_arr(2, 2, vec![0u8; 13]).unwrap_err(),
        TransformError::MalformedBuffer
    );
}

#[test]
fn resize_identity_reproduces_pixels() {
    let src = image_2x2();
    let out = src.resize_image(2, 2).unwrap();
    assert_eq!(out.get_bytes(), src.get_bytes());

    let data: Vec<u8> = (0u8..3 * 2 * 3).collect();
    let src = Thumbnail::from_byte_arr(3, 2, data.clone()).unwrap();
    let out = src.resize_image(3, 2).unwrap();
    assert_eq!(out.get_bytes(), &data[..]);
}

#[test]
fn resize_preserves_corners() {
    let src = image_2x2();
    let out = src.resize_image(5, 4).unwrap();
    let bytes = out.get_bytes();
    // destination (0,0) is source (0,0)
    assert_eq!(&bytes[0..3], &[255, 0, 0]);
    // destination (3,4) — the last pixel — is source (1,1)
    let last = (3 * 5 + 4) * 3;
    assert_eq!(&bytes[last..last + 3], &[255, 255, 255]);
}

#[test]
fn resize_output_shape() {
    let src = image_2x2();
    assert_eq!(src.resize_image(7, 5).unwrap().get_bytes().len(), 7 * 5 * 3);
    assert_eq!(src.resize_image(2, 9).unwrap().get_bytes().len(), 2 * 9 * 3);
    assert_eq!(src.resize_image(64, 64).unwrap().get_bytes().len(), 64 * 64 * 3);
}

#[test]
fn duotone_keeps_length() {
    let src = image_2x2();
    let len = src.get_bytes().len();
    let mapped = src.color_map(0xae98b5, 0x0);
    assert_eq!(mapped.get_bytes().len(), len);
}

#[test]
fn duotone_boundary_values() {
    // one black pixel (luminance 0) and one white pixel (luminance 1)
    let src = Thumbnail::from_byte_arr(2, 1, vec![0, 0, 0, 255, 255, 255]).unwrap();
    let mapped = src.color_map(0x123456, 0x654321);
    assert_eq!(mapped.get_bytes(), &[0x65, 0x43, 0x21, 0x12, 0x34, 0x56][..]);
}

#[test]
fn duotone_constant_gradient() {
    // with both endpoints equal every pixel becomes exactly that color
    let src = image_2x2();
    let mapped = src.color_map(0xae98b5, 0xae98b5);
    let expected = [0xae, 0x98, 0xb5].repeat(4);
    assert_eq!(mapped.get_bytes(), &expected[..]);
}

#[test]
fn resize_2x2_to_3x3_bilinear_blend() {
    let src = image_2x2();
    let out = src.resize_image(3, 3).unwrap();
    let expected: Vec<u8> = vec![
        255, 0, 0, /* */ 127, 127, 0, /* */ 0, 255, 0, //
        127, 0, 127, /* */ 127, 127, 127, /* */ 127, 255, 127, //
        0, 0, 255, /* */ 127, 127, 255, /* */ 255, 255, 255,
    ];
    assert_eq!(out.get_bytes(), &expected[..]);
}

#[test]
fn duotone_grayscale_luminance_table() {
    // black-to-white gradient reduces to grayscale with the 0.30/0.59/0.11 weights
    let data = vec![
        255, 0, 0, /* */ 0, 255, 0, //
        0, 0, 255, /* */ 0, 0, 0, //
        255, 255, 255, /* */ 10, 20, 30,
    ];
    let src = Thumbnail::from_byte_arr(2, 3, data).unwrap();
    let mapped = src.color_map(0xFFFFFF, 0x000000);
    let expected = [76u8, 150, 28, 0, 255, 18]
        .iter()
        .flat_map(|&g| [g, g, g])
        .collect::<Vec<u8>>();
    assert_eq!(mapped.get_bytes(), &expected[..]);
}

#[test]
fn resize_rejects_thin_targets() {
    let src = image_2x2();
    assert_eq!(src.resize_image(1, 10).unwrap_err(), TransformError::InvalidDimension);
    assert_eq!(src.resize_image(10, 1).unwrap_err(), TransformError::InvalidDimension);
    assert_eq!(src.resize_image(0, 10).unwrap_err(), TransformError::InvalidDimension);
    assert_eq!(src.resize_image(10, 0).unwrap_err(), TransformError::InvalidDimension);
}

#[test]
fn chained_color_map_then_resize() {
    // the builder-style pipeline of the original tool: map, then resample
    let mapped = image_2x2().color_map(0xFFFFFF, 0x000000);
    let out = mapped.resize_image(3, 3).unwrap();
    let bytes = out.get_bytes();
    assert_eq!(bytes.len(), 27);
    // corners are the grayscale values of the four source pixels
    assert_eq!(&bytes[0..3], &[76, 76, 76]);
    assert_eq!(&bytes[6..9], &[150, 150, 150]);
    assert_eq!(&bytes[18..21], &[28, 28, 28]);
    assert_eq!(&bytes[24..27], &[255, 255, 255]);
}
