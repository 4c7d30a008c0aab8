use engine::text::AlphaBitmap;
use engine::texture::{TextureData, TextureError};

fn png_2x2() -> Vec<u8> {
    let pixels: Vec<u8> = vec![
        255, 0, 0, 255, 0, 255, 0, 255, //
        0, 0, 255, 255, 10, 20, 30, 40,
    ];
    let img = image::RgbaImage::from_raw(2, 2, pixels).unwrap();
    let mut out = std::io::Cursor::new(Vec::new());
    img.write_to(&mut out, image::ImageFormat::Png).unwrap();
    out.into_inner()
}

#[test]
fn png_decodes_to_rgba_rows() {
    let bytes = png_2x2();
    let data = TextureData::from_bytes(&bytes).unwrap();
    assert_eq!((data.width, data.height), (2, 2));
    assert_eq!(data.rgba, vec![255, 0, 0, 255, 0, 255, 0, 255, 0, 0, 255, 255, 10, 20, 30, 40]);
    assert_ne!(data.rgba, bytes);
    assert_eq!(data.bytes_per_row(), 8);
}

#[test]
fn garbage_does_not_decode() {
    assert_eq!(TextureData::from_bytes(&[1, 2, 3, 4]).unwrap_err(), TextureError::Decode);
    assert_eq!(TextureData::from_bytes(&[]).unwrap_err(), TextureError::Decode);
}

#[test]
fn white_is_one_opaque_pixel() {
    let w = TextureData::white();
    assert_eq!((w.width, w.height), (1, 1));
    assert_eq!(w.rgba, vec![255, 255, 255, 255]);
    assert_eq!(w.bytes_per_row(), 4);
}

#[test]
fn coverage_becomes_alpha_of_white() {
    let b = AlphaBitmap { pixels: vec![0, 128, 255], width: 3, height: 1 };
    let data = TextureData::from_alpha_bitmap(&b).unwrap();
    assert_eq!((data.width, data.height), (3, 1));
    assert_eq!(data.rgba, vec![255, 255, 255, 0, 255, 255, 255, 128, 255, 255, 255, 255]);
    assert_eq!(data.bytes_per_row(), 12);
}

#[test]
fn bitmap_too_wide_for_a_row_is_refused() {
    let b = AlphaBitmap { pixels: Vec::new(), width: (u32::MAX / 4) as usize + 1, height: 0 };
    assert_eq!(TextureData::from_alpha_bitmap(&b).unwrap_err(), TextureError::TooLarge);
}
