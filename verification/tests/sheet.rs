use cece::sprites::{ColorKind, Sheet, SheetError, FRAME, FRAMES};

/// A 1024x640 image of `channels` samples per pixel, each pixel's samples
/// telling which frame tile it is in.
fn image(channels: usize) -> Vec<u8> {
    let (w, h) = (1024, 640);
    let mut data = vec![0u8; w * h * channels];
    for y in 0..h {
        for x in 0..w {
            let tile = (y / FRAME) * 8 + x / FRAME;
            let i = (y * w + x) * channels;
            for c in 0..channels {
                data[i + c] = (tile * 7 + c * 3) as u8;
            }
            if channels == 4 || channels == 2 {
                data[i + channels - 1] = if x % 2 == 0 { 255 } else { 128 };
            }
        }
    }
    data
}

fn png_bytes(channels: usize, color: png::ColorType) -> Vec<u8> {
    let mut out = Vec::new();
    {
        let mut enc = png::Encoder::new(&mut out, 1024, 640);
        enc.set_color(color);
        enc.set_depth(png::BitDepth::Eight);
        let mut writer = enc.write_header().unwrap();
        writer.write_image_data(&image(channels)).unwrap();
    }
    out
}

#[test]
fn every_frame_is_cut_from_its_tile() {
    let sheet = Sheet::from_image(1024, 640, ColorKind::Rgb, &image(3)).unwrap();
    for (i, name) in FRAMES.iter().enumerate() {
        let frame = sheet.get(name);
        assert_eq!(frame.len(), FRAME * FRAME);
        let c = |k: usize| (i * 7 + k * 3) as u8 as u32;
        assert_eq!(frame[0], 0xff00_0000 | c(0) << 16 | c(1) << 8 | c(2), "{name}");
    }
}

#[test]
fn pixels_are_premultiplied() {
    let data = image(4);
    let sheet = Sheet::from_image(1024, 640, ColorKind::Rgba, &data).unwrap();
    let frame = sheet.get("awake_blink");
    // Tile 1, second pixel: samples 7, 10, 13 at alpha 128.
    let pm = |c: u32| (c * 128 + 127) / 255;
    assert_eq!(frame[1], 128 << 24 | pm(7) << 16 | pm(10) << 8 | pm(13));
    assert_eq!(frame[0] >> 24, 255);
    for p in frame {
        let a = p >> 24;
        assert!((p >> 16 & 0xff) <= a && (p >> 8 & 0xff) <= a && (p & 0xff) <= a);
    }
}

#[test]
fn grey_samples_fill_every_channel() {
    let sheet = Sheet::from_image(1024, 640, ColorKind::GrayscaleAlpha, &image(2)).unwrap();
    let frame = sheet.get("leftclaw2");
    let g = ((33 * 7) as u8) as u32;
    assert_eq!(frame[0], 0xff00_0000 | g << 16 | g << 8 | g);
    let sheet = Sheet::from_image(1024, 640, ColorKind::Grayscale, &image(1)).unwrap();
    assert_eq!(sheet.get("leftclaw2")[1], 0xff00_0000 | g << 16 | g << 8 | g);
}

#[test]
fn unusable_images_are_refused() {
    assert!(matches!(Sheet::from_image(1024, 640, ColorKind::Indexed, &image(1)), Err(SheetError::Indexed)));
    assert!(matches!(Sheet::from_image(1023, 640, ColorKind::Rgb, &image(3)), Err(SheetError::TooSmall(1023, 640))));
    assert!(matches!(Sheet::from_image(1024, 639, ColorKind::Rgb, &image(3)), Err(SheetError::TooSmall(1024, 639))));
    let short = &image(3)[..100];
    assert!(matches!(Sheet::from_image(1024, 640, ColorKind::Rgb, short), Err(SheetError::Truncated)));
}

#[test]
fn a_png_sheet_decodes() {
    let sheet = Sheet::decode(&png_bytes(4, png::ColorType::Rgba)).unwrap();
    let direct = Sheet::from_image(1024, 640, ColorKind::Rgba, &image(4)).unwrap();
    for name in FRAMES {
        assert_eq!(sheet.get(name), direct.get(name));
    }
}

#[test]
fn a_grey_png_sheet_decodes() {
    let sheet = Sheet::decode(&png_bytes(1, png::ColorType::Grayscale)).unwrap();
    let direct = Sheet::from_image(1024, 640, ColorKind::Grayscale, &image(1)).unwrap();
    assert_eq!(sheet.get("sleep1"), direct.get("sleep1"));
}

#[test]
fn garbage_is_not_a_png() {
    assert!(matches!(Sheet::decode(b"not a png at all"), Err(SheetError::Png(_))));
}

#[test]
fn a_small_png_is_too_small() {
    let mut out = Vec::new();
    {
        let mut enc = png::Encoder::new(&mut out, 2, 2);
        enc.set_color(png::ColorType::Rgb);
        enc.set_depth(png::BitDepth::Eight);
        let mut writer = enc.write_header().unwrap();
        writer.write_image_data(&[0u8; 12]).unwrap();
    }
    assert!(matches!(Sheet::decode(&out), Err(SheetError::TooSmall(2, 2))));
}
