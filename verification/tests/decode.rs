use swiftflow::decode::{
    decode, expand, jpeg_to_image, png_to_image, JpegFormat, PixelLayout, PngColor,
};

fn red_blue_png() -> Vec<u8> {
    let mut out = Vec::new();
    {
        let mut enc = png::Encoder::new(&mut out, 2, 1);
        enc.set_color(png::ColorType::Rgba);
        enc.set_depth(png::BitDepth::Eight);
        let mut w = enc.write_header().unwrap();
        w.write_image_data(&[255, 0, 0, 255, 0, 0, 255, 128]).unwrap();
    }
    out
}

#[test]
fn decodes_png_to_straight_rgba() {
    let img = decode(&red_blue_png()).expect("png should decode");
    assert_eq!((img.width, img.height), (2, 1));
    assert_eq!(img.rgba.len(), 2 * 4);
    assert_eq!(&img.rgba[0..4], &[255, 0, 0, 255]);
    assert_eq!(&img.rgba[4..8], &[0, 0, 255, 128]);
}

#[test]
fn png_without_alpha_becomes_opaque() {
    let mut out = Vec::new();
    {
        let mut enc = png::Encoder::new(&mut out, 1, 1);
        enc.set_color(png::ColorType::Rgb);
        enc.set_depth(png::BitDepth::Eight);
        let mut w = enc.write_header().unwrap();
        w.write_image_data(&[10, 20, 30]).unwrap();
    }
    let img = decode(&out).expect("rgb png should decode");
    assert_eq!(&img.rgba[..], &[10, 20, 30, 255]);
}

#[test]
fn grey_png_is_spread_over_the_colour_channels() {
    let mut out = Vec::new();
    {
        let mut enc = png::Encoder::new(&mut out, 2, 1);
        enc.set_color(png::ColorType::GrayscaleAlpha);
        enc.set_depth(png::BitDepth::Eight);
        let mut w = enc.write_header().unwrap();
        w.write_image_data(&[7, 100, 9, 200]).unwrap();
    }
    let img = decode(&out).expect("grey png should decode");
    assert_eq!(&img.rgba[..], &[7, 7, 7, 100, 9, 9, 9, 200]);
}

#[test]
fn rejects_unknown_and_truncated_data() {
    assert!(decode(b"not an image at all").is_none());
    let png = red_blue_png();
    assert!(decode(&png[..png.len() / 2]).is_none());
    assert!(decode(&[0xFF, 0xD8, 0xFF, 0x00]).is_none());
    assert!(decode(&[]).is_none());
}

#[test]
fn every_pixel_layout_expands_to_rgba() {
    let src = vec![1, 2, 3, 4, 5, 6];
    assert_eq!(expand(&src, 2, PixelLayout::Rgb), Some(vec![1, 2, 3, 255, 4, 5, 6, 255]));
    assert_eq!(expand(&src, 3, PixelLayout::GrayAlpha), Some(vec![1, 1, 1, 2, 3, 3, 3, 4, 5, 5, 5, 6]));
    assert_eq!(expand(&src, 1, PixelLayout::Gray), Some(vec![1, 1, 1, 255]));
    assert_eq!(expand(&src, 2, PixelLayout::Gray16), Some(vec![2, 2, 2, 255, 4, 4, 4, 255]));
    assert_eq!(expand(&src, 3, PixelLayout::Rgb), None);
    assert_eq!(expand(&src, usize::MAX, PixelLayout::Rgb), None);
}

#[test]
fn frames_become_images_by_their_layout() {
    let img = png_to_image(vec![1, 2, 3, 4, 5, 6, 7, 8, 9], 2, 1, PngColor::Rgba).unwrap();
    assert_eq!(img.rgba, vec![1, 2, 3, 4, 5, 6, 7, 8]);
    assert!(png_to_image(vec![1, 2, 3], 1, 1, PngColor::Indexed).is_none());
    assert!(png_to_image(vec![1, 2], 1, 1, PngColor::Rgb).is_none());
    let img = jpeg_to_image(vec![0, 9, 0, 8], 2, 1, JpegFormat::L16).unwrap();
    assert_eq!((img.rgba, img.width, img.height), (vec![9, 9, 9, 255, 8, 8, 8, 255], 2, 1));
    assert!(jpeg_to_image(vec![0; 8], 2, 1, JpegFormat::Cmyk32).is_none());
}

#[test]
fn every_decoded_png_holds_four_bytes_a_pixel() {
    let mut out = Vec::new();
    {
        let mut enc = png::Encoder::new(&mut out, 3, 2);
        enc.set_color(png::ColorType::Indexed);
        enc.set_depth(png::BitDepth::Eight);
        enc.set_palette(vec![1, 2, 3, 4, 5, 6]);
        let mut w = enc.write_header().unwrap();
        w.write_image_data(&[0, 1, 0, 1, 0, 1]).unwrap();
    }
    let img = decode(&out).expect("palette png should decode");
    assert_eq!((img.width, img.height), (3, 2));
    assert_eq!(img.rgba.len(), 4 * 3 * 2);
    assert_eq!(&img.rgba[0..8], &[1, 2, 3, 255, 4, 5, 6, 255]);

    let mut out = Vec::new();
    {
        let mut enc = png::Encoder::new(&mut out, 1, 2);
        enc.set_color(png::ColorType::Grayscale);
        enc.set_depth(png::BitDepth::Sixteen);
        let mut w = enc.write_header().unwrap();
        w.write_image_data(&[0x12, 0x34, 0xab, 0xcd]).unwrap();
    }
    let img = decode(&out).expect("16-bit grey png should decode");
    assert_eq!(img.rgba.len(), 4 * 1 * 2);
    assert_eq!(&img.rgba[..], &[0x12, 0x12, 0x12, 255, 0xab, 0xab, 0xab, 255]);
}
