use cece::render::{tint_color, Canvas};

#[test]
fn clear_blanks_every_pixel() {
    let mut pixels = vec![7u32; 12];
    let mut canvas = Canvas { pixels: &mut pixels, width: 3, height: 4 };
    canvas.clear();
    assert!(pixels.iter().all(|p| *p == 0));
}

#[test]
fn blending_covers_mixes_and_clips() {
    let mut pixels = vec![0xffff_ffffu32; 4];
    let mut canvas = Canvas { pixels: &mut pixels, width: 2, height: 2 };
    canvas.blend(0, 0, 0xff12_3456);
    canvas.blend(1, 0, 0x8040_2010);
    canvas.blend(0, 1, 0x0012_3456);
    canvas.blend(-1, 0, 0xff00_0000);
    canvas.blend(2, 0, 0xff00_0000);
    canvas.blend(0, 2, 0xff00_0000);
    assert_eq!(pixels, vec![0xff12_3456, 0xffbf_9f8f, 0xffff_ffff, 0xffff_ffff]);
}

#[test]
fn blending_onto_clear_keeps_the_source() {
    let mut pixels = vec![0u32; 1];
    let mut canvas = Canvas { pixels: &mut pixels, width: 1, height: 1 };
    canvas.blend(0, 0, 0x8040_2010);
    assert_eq!(pixels[0], 0x8040_2010);
}

#[test]
fn a_sprite_is_scaled_nearest_neighbour() {
    // Frame: left half opaque red, right half transparent.
    let frame: Vec<u32> = (0..128 * 128).map(|i| if i % 128 < 64 { 0xffff_0000 } else { 0 }).collect();
    let mut pixels = vec![0u32; 6 * 6];
    let mut canvas = Canvas { pixels: &mut pixels, width: 6, height: 6 };
    canvas.blit(&frame, 1, 1, 4);
    for y in 0..6 {
        for x in 0..6 {
            let inside = (1..5).contains(&x) && (1..5).contains(&y);
            let red = inside && x < 3;
            assert_eq!(pixels[y * 6 + x], if red { 0xffff_0000 } else { 0 }, "{x},{y}");
        }
    }
}

#[test]
fn a_sprite_off_the_edge_is_clipped() {
    let frame = vec![0xff00_ff00u32; 128 * 128];
    let mut pixels = vec![0u32; 4 * 4];
    let mut canvas = Canvas { pixels: &mut pixels, width: 4, height: 4 };
    canvas.blit(&frame, -2, 2, 4);
    let solid = pixels.iter().filter(|p| **p != 0).count();
    assert_eq!(solid, 4);
    assert_eq!(pixels[2 * 4], 0xff00_ff00);
    assert_eq!(pixels[3 * 4 + 1], 0xff00_ff00);
}

#[test]
fn the_z_glyph() {
    let mut pixels = vec![0u32; 10 * 10];
    let mut canvas = Canvas { pixels: &mut pixels, width: 10, height: 10 };
    canvas.glyph(0, 0, 2, 0xffff_ffff);
    let rows = ["11111", "00010", "00100", "01000", "11111"];
    for y in 0..10 {
        for x in 0..10 {
            let inked = rows[y / 2].as_bytes()[x / 2] == b'1';
            assert_eq!(pixels[y * 10 + x] != 0, inked, "{x},{y}");
        }
    }
}

#[test]
fn tints_are_premultiplied() {
    assert_eq!(tint_color(255, 0xe4_e2ec), 0xffe4_e2ec);
    assert_eq!(tint_color(0, 0xe4_e2ec), 0);
    assert_eq!(tint_color(128, 0xff_8000), 0x8080_4000);
}
