use std::io::Cursor;
use vidimg::picture::{decode_picture, PictureError};

fn png_bytes() -> Vec<u8> {
    let mut img = image::RgbImage::new(2, 1);
    img.put_pixel(0, 0, image::Rgb([10, 20, 30]));
    img.put_pixel(1, 0, image::Rgb([40, 50, 60]));
    let mut out = Cursor::new(Vec::new());
    img.write_to(&mut out, image::ImageFormat::Png).unwrap();
    out.into_inner()
}

#[test]
fn a_png_file_decodes_to_its_pixels() {
    let bytes = png_bytes();
    let img = match decode_picture("pic.png", &bytes) {
        Ok(img) => img,
        Err(_) => panic!("decoding failed"),
    };
    assert_eq!((img.width, img.height), (2, 1));
    assert_eq!(img.data, vec![[10, 20, 30], [40, 50, 60]]);
}

#[test]
fn the_extension_names_the_format_in_any_case() {
    let bytes = png_bytes();
    assert!(decode_picture("PIC.PNG", &bytes).is_ok());
}

#[test]
fn unknown_extensions_and_wrong_formats_fail() {
    let bytes = png_bytes();
    assert!(matches!(decode_picture("pic.txt", &bytes), Err(PictureError::Decode(_))));
    assert!(matches!(decode_picture("pic", &bytes), Err(PictureError::Decode(_))));
    assert!(matches!(decode_picture("pic.bmp", &bytes), Err(PictureError::Decode(_))));
    assert!(matches!(decode_picture("pic.png", &[1, 2, 3]), Err(PictureError::Decode(_))));
}
