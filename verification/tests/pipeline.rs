use retro_filter::blend_channel;
use retro_filter::composite;
use retro_filter::palette_blend;
use retro_filter::BlendMode;
use retro_filter::EffectStack;
use retro_filter::RgbBuffer;
use retro_filter::VignetteSettings;

fn solid(width: u32, height: u32, value: u8) -> RgbBuffer {
    RgbBuffer {
        width,
        height,
        data: vec![value; (width * height * 3) as usize],
    }
}

fn rgb_at(buf: &RgbBuffer, x: u32, y: u32, c: u32) -> u8 {
    buf.data[((y as usize * buf.width as usize + x as usize) * 3 + c as usize)]
}

fn no_effects() -> EffectStack {
    EffectStack {
        bleachbypass: None,
        vignette: None,
        filmgrain: None,
    }
}

#[test]
fn blend_opacity_zero_is_identity() {
    let original = vec![10u8, 200, 255, 0, 43, 90];
    for mode in [BlendMode::Multiply, BlendMode::Overlay] {
        let mut base = RgbBuffer { width: 2, height: 1, data: original.clone() };
        let top = RgbBuffer { width: 2, height: 1, data: vec![7, 77, 177, 255, 0, 128] };
        palette_blend(&mut base, &top, 0, mode);
        assert_eq!(base.data, original);
    }
}

#[test]
fn multiply_with_white_overlay_is_identity() {
    let original = vec![10u8, 200, 255, 0, 43, 90];
    let top = RgbBuffer { width: 2, height: 1, data: vec![255; 6] };
    for alpha in [100u8, 70, 30] {
        let mut base = RgbBuffer { width: 2, height: 1, data: original.clone() };
        palette_blend(&mut base, &top, alpha, BlendMode::Multiply);
        assert_eq!(base.data, original, "changed at opacity {}", alpha);
    }
}

#[test]
fn multiply_with_black_overlay_is_black() {
    let mut base = RgbBuffer { width: 2, height: 1, data: vec![10, 200, 255, 0, 43, 90] };
    let top = RgbBuffer { width: 2, height: 1, data: vec![0; 6] };
    palette_blend(&mut base, &top, 100, BlendMode::Multiply);
    assert_eq!(base.data, vec![0; 6]);
}

#[test]
fn blend_channel_known_values() {
    // multiply of 100 by 200 in linear light
    assert_eq!(blend_channel(100, 200, 100, BlendMode::Multiply), 78);
    // overlay of 100 (below half white) by 200
    assert_eq!(blend_channel(100, 200, 100, BlendMode::Overlay), 111);
    // half-opacity multiply towards black fades, not erases
    assert_eq!(blend_channel(100, 0, 50, BlendMode::Multiply), 71);
    // opacity zero ignores the overlay entirely
    assert_eq!(blend_channel(200, 17, 0, BlendMode::Overlay), 200);
}

#[test]
fn composite_all_disabled_returns_base_pixels() {
    let mut data = Vec::new();
    for i in 0..(5 * 4 * 3) {
        data.push((i * 7 % 256) as u8);
    }
    let base = RgbBuffer { width: 5, height: 4, data: data.clone() };
    let out = composite(&base, &no_effects(), 400, true);
    assert_eq!(out.width, 5);
    assert_eq!(out.height, 4);
    assert_eq!(out.data, data);
}

#[test]
fn composite_preview_flag_selects_radius_scaling() {
    // 80x40 image previewed at 40: full-resolution processing doubles
    // the tuned radius of 10, so a pixel 15 from center sits outside the
    // preview vignette but inside the scaled one's gradient band
    let base = solid(80, 40, 100);
    let mut effects = no_effects();
    effects.vignette = Some(VignetteSettings { radius: 10, alpha: 100, dither: false });
    let preview = composite(&base, &effects, 40, true);
    let full = composite(&base, &effects, 40, false);
    assert_eq!(rgb_at(&preview, 55, 20, 0), 0);
    assert_eq!(rgb_at(&full, 55, 20, 0), 38);
}

#[test]
fn composite_vignette_end_to_end_full_resolution() {
    // a 1600x1200 image, vignette tuned to radius 250 against a 400
    // thumbnail at opacity 0.7: the resolved radius is 1000 with a clear
    // inner disk of 330, and darkening grows towards the border
    let base = solid(1600, 1200, 200);
    let mut effects = no_effects();
    effects.vignette = Some(VignetteSettings { radius: 250, alpha: 70, dither: true });
    let out = composite(&base, &effects, 400, false);
    assert_eq!(out.width, 1600);
    assert_eq!(out.height, 1200);
    // center and everything within the inner disk is untouched
    assert_eq!(rgb_at(&out, 800, 600, 0), 200);
    assert_eq!(rgb_at(&out, 1000, 600, 1), 200);
    assert_eq!(rgb_at(&out, 800, 350, 2), 200);
    // the corner lies exactly at the resolved radius: fully darkened mask
    assert_eq!(rgb_at(&out, 0, 0, 0), 110);
    // pixels in the gradient band darken progressively towards the border
    let nearer = rgb_at(&out, 800, 0, 0); // 600 from center
    let farther = rgb_at(&out, 0, 600, 0); // 800 from center
    assert!(nearer < 200 && nearer > 110, "band pixel out of range: {}", nearer);
    assert!(farther < 200 && farther > 110, "band pixel out of range: {}", farther);
    assert!(farther < nearer, "darkening did not grow: {} vs {}", farther, nearer);
}
