use mcface::image::{rgba_from_samples, Image, PngColor};

#[test]
fn png_roundtrip() {
    let mut img = Image::new(3, 2);
    img.set(0, 0, [255, 0, 0, 255]);
    img.set(2, 1, [1, 2, 3, 128]);
    assert_eq!(Image::decode_png(&img.encode_png()).unwrap(), img);
}

#[test]
fn scale_repeats_pixels() {
    let mut img = Image::new(2, 1);
    img.set(1, 0, [9, 9, 9, 255]);
    let s = img.scale(3);
    assert_eq!((s.w, s.h), (6, 3));
    assert_eq!(s.get(2, 2), [0; 4]);
    assert_eq!(s.get(3, 0), [9, 9, 9, 255]);
}

#[test]
fn over_respects_alpha() {
    let mut base = Image::new(1, 1);
    base.set(0, 0, [0, 0, 0, 255]);
    let mut top = Image::new(1, 1);
    top.set(0, 0, [255, 255, 255, 0]);
    base.over(&top, 0, 0);
    assert_eq!(base.get(0, 0), [0, 0, 0, 255]);
    top.set(0, 0, [200, 100, 50, 255]);
    base.over(&top, 0, 0);
    assert_eq!(base.get(0, 0), [200, 100, 50, 255]);
}

#[test]
fn over_blends_half_transparent_pixels() {
    // sa = 128 over an opaque black pixel: out_a = 128*255 + 255*127 = 65025,
    // red = 200*128*255 / 65025 = 100 (rounded down), alpha = 255.
    let mut base = Image::new(1, 1);
    base.set(0, 0, [0, 0, 0, 255]);
    let mut top = Image::new(1, 1);
    top.set(0, 0, [200, 0, 0, 128]);
    base.over(&top, 0, 0);
    assert_eq!(base.get(0, 0), [100, 0, 0, 255]);
    // Over a transparent pixel the colour is kept and the alpha is the source's.
    let mut clear = Image::new(1, 1);
    clear.over(&top, 0, 0);
    assert_eq!(clear.get(0, 0), [200, 0, 0, 128]);
}

#[test]
fn over_clips_at_the_edges() {
    let mut base = Image::new(2, 2);
    let mut top = Image::new(2, 2);
    for y in 0..2 {
        for x in 0..2 {
            top.set(x, y, [10 * (x as u8 + 1), 10 * (y as u8 + 1), 0, 255]);
        }
    }
    base.over(&top, 1, -1);
    assert_eq!(base.get(1, 0), [10, 20, 0, 255]);
    assert_eq!(base.get(0, 0), [0, 0, 0, 0]);
    assert_eq!(base.get(0, 1), [0, 0, 0, 0]);
    assert_eq!(base.get(1, 1), [0, 0, 0, 0]);
    base.over(&top, 5, 5);
    assert_eq!(base.get(1, 0), [10, 20, 0, 255]);
}

#[test]
fn crop_copies_a_region() {
    let mut img = Image::new(3, 3);
    img.set(1, 1, [1, 1, 1, 1]);
    img.set(2, 2, [2, 2, 2, 2]);
    let c = img.crop(1, 1, 2, 2).unwrap();
    assert_eq!((c.w, c.h), (2, 2));
    assert_eq!(c.get(0, 0), [1, 1, 1, 1]);
    assert_eq!(c.get(1, 1), [2, 2, 2, 2]);
    assert_eq!(c.get(1, 0), [0, 0, 0, 0]);
}

#[test]
fn crop_outside_is_an_error() {
    let img = Image::new(3, 2);
    assert_eq!(img.crop(2, 0, 2, 1).unwrap_err(), "crop 2x1+2+0 is outside the 3x2 image");
    assert_eq!(img.crop(0, 1, 3, 2).unwrap_err(), "crop 3x2+0+1 is outside the 3x2 image");
    assert!(img.crop(0, 0, 3, 2).is_ok());
}

#[test]
fn scale_by_one_and_zero() {
    let mut img = Image::new(2, 2);
    img.set(1, 0, [5, 6, 7, 8]);
    assert_eq!(img.scale(1), img);
    let z = img.scale(0);
    assert_eq!((z.w, z.h, z.px.len()), (0, 0, 0));
}

#[test]
fn from_rgba_groups_bytes() {
    let img = Image::from_rgba(1, 2, &[1, 2, 3, 4, 5, 6, 7, 8]);
    assert_eq!(img.px, vec![[1, 2, 3, 4], [5, 6, 7, 8]]);
    assert_eq!(img.rgba_bytes(), vec![1, 2, 3, 4, 5, 6, 7, 8]);
}

#[test]
fn samples_of_every_colour_type() {
    assert_eq!(rgba_from_samples(PngColor::Rgb, &[1, 2, 3, 4, 5, 6]).unwrap(), vec![[1, 2, 3, 255], [4, 5, 6, 255]]);
    assert_eq!(rgba_from_samples(PngColor::GrayscaleAlpha, &[9, 100]).unwrap(), vec![[9, 9, 9, 100]]);
    assert_eq!(rgba_from_samples(PngColor::Grayscale, &[7]).unwrap(), vec![[7, 7, 7, 255]]);
    assert_eq!(rgba_from_samples(PngColor::Rgba, &[1, 2, 3, 4]).unwrap(), vec![[1, 2, 3, 4]]);
    assert_eq!(rgba_from_samples(PngColor::Indexed, &[0]).unwrap_err(), "unexpected indexed PNG output");
}

#[test]
fn decode_rejects_garbage() {
    let err = Image::decode_png(b"not a png").unwrap_err();
    assert!(err.starts_with("invalid PNG: "), "{err}");
}

#[test]
fn encode_writes_a_png_signature() {
    let img = Image::new(1, 1);
    let bytes = img.encode_png();
    assert_eq!(&bytes[..8], &[137, 80, 78, 71, 13, 10, 26, 10]);
    let back = Image::decode_png(&bytes).unwrap();
    assert_eq!((back.w, back.h), (1, 1));
}

fn encode_with(color: png::ColorType, w: u32, h: u32, data: &[u8]) -> Vec<u8> {
    let mut out = Vec::new();
    {
        let mut enc = png::Encoder::new(&mut out, w, h);
        enc.set_color(color);
        enc.set_depth(png::BitDepth::Eight);
        let mut writer = enc.write_header().unwrap();
        writer.write_image_data(data).unwrap();
    }
    out
}

#[test]
fn decodes_rgb_and_grey_pngs_to_rgba() {
    let rgb = encode_with(png::ColorType::Rgb, 2, 1, &[1, 2, 3, 4, 5, 6]);
    let img = Image::decode_png(&rgb).unwrap();
    assert_eq!((img.w, img.h), (2, 1));
    assert_eq!(img.px, vec![[1, 2, 3, 255], [4, 5, 6, 255]]);
    let grey = encode_with(png::ColorType::Grayscale, 1, 2, &[7, 9]);
    assert_eq!(Image::decode_png(&grey).unwrap().px, vec![[7, 7, 7, 255], [9, 9, 9, 255]]);
    let grey_alpha = encode_with(png::ColorType::GrayscaleAlpha, 1, 1, &[7, 100]);
    assert_eq!(Image::decode_png(&grey_alpha).unwrap().px, vec![[7, 7, 7, 100]]);
}

#[test]
fn decode_errors_name_their_cause() {
    let e = Image::decode_png(b"not a png").unwrap_err();
    assert!(e.starts_with("invalid PNG: "), "{e}");
}

#[test]
fn large_png_roundtrip() {
    let mut img = Image::new(300, 300);
    img.set(299, 299, [1, 2, 3, 4]);
    img.set(0, 150, [200, 100, 50, 255]);
    assert_eq!(Image::decode_png(&img.encode_png()).unwrap(), img);
}

#[test]
fn scaling_twice_is_scaling_by_the_product() {
    let mut img = Image::new(2, 3);
    img.set(1, 2, [9, 8, 7, 6]);
    img.set(0, 1, [1, 2, 3, 4]);
    assert_eq!(img.scale(2).scale(3), img.scale(6));
}
