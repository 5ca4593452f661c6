use retro_filter::bleach_bypass;
use retro_filter::create_vignette;
use retro_filter::film_grain;
use retro_filter::gradient_noise;
use retro_filter::scaled_radius;
use retro_filter::GrayBuffer;
use retro_filter::RgbBuffer;

fn gray_at(mask: &GrayBuffer, x: u32, y: u32) -> u8 {
    mask.data[(y * mask.width + x) as usize]
}

fn solid(width: u32, height: u32, value: u8) -> RgbBuffer {
    RgbBuffer {
        width,
        height,
        data: vec![value; (width * height * 3) as usize],
    }
}

#[test]
fn vignette_center_fully_transparent() {
    let mask = create_vignette(101, 101, 40, false);
    assert_eq!(gray_at(&mask, 50, 50), 255);
    // the whole inner disk (radius 13 for a vignette radius of 40) is clear
    assert_eq!(gray_at(&mask, 63, 50), 255);
    assert_eq!(gray_at(&mask, 50, 37), 255);
}

#[test]
fn vignette_first_gradient_ring_value() {
    // distance 14, just outside the inner disk: ring 26 of 27,
    // round(255 * 26 / 27) = 246
    let mask = create_vignette(101, 101, 40, false);
    assert_eq!(gray_at(&mask, 64, 50), 246);
}

#[test]
fn vignette_zero_beyond_radius() {
    let mask = create_vignette(101, 101, 40, false);
    assert_eq!(gray_at(&mask, 95, 50), 0);
    assert_eq!(gray_at(&mask, 50, 91), 0);
    assert_eq!(gray_at(&mask, 0, 0), 0);
}

#[test]
fn vignette_monotone_along_row() {
    let mask = create_vignette(101, 101, 40, false);
    let mut prev = gray_at(&mask, 50, 50);
    for x in 51..101 {
        let v = gray_at(&mask, x, 50);
        assert!(v <= prev, "mask brightened from {} to {} at x={}", prev, v, x);
        prev = v;
    }
}

#[test]
fn vignette_dither_stays_within_tolerance() {
    let exact = create_vignette(61, 61, 25, false);
    let dithered = create_vignette(61, 61, 25, true);
    for i in 0..exact.data.len() {
        let e = exact.data[i] as i32;
        let d = dithered.data[i] as i32;
        if e == 0 || e == 255 {
            assert_eq!(d, e, "boundary value moved at {}", i);
        } else {
            assert!((d - e).abs() <= 10, "dither out of range at {}: {} vs {}", i, d, e);
        }
    }
}

#[test]
fn vignette_dithered_still_fades_outwards() {
    let mask = create_vignette(101, 101, 40, true);
    let mut prev = gray_at(&mask, 50, 50) as i32;
    for x in 51..101 {
        let v = gray_at(&mask, x, 50) as i32;
        assert!(v <= prev + 19, "fade reversed beyond tolerance at x={}", x);
        prev = v;
    }
}

#[test]
fn vignette_degenerate_radius() {
    // radius 0 leaves only the single center pixel clear
    let mask = create_vignette(9, 9, 0, false);
    assert_eq!(gray_at(&mask, 4, 4), 255);
    assert_eq!(gray_at(&mask, 5, 4), 0);
    assert_eq!(gray_at(&mask, 0, 0), 0);
}

#[test]
fn gradient_noise_keeps_boundary_values() {
    let mut buf = GrayBuffer {
        width: 3,
        height: 1,
        data: vec![0, 255, 128],
    };
    gradient_noise(&mut buf);
    assert_eq!(buf.data[0], 0);
    assert_eq!(buf.data[1], 255);
    let moved = buf.data[2] as i32;
    assert!((moved - 128).abs() <= 10);
}

#[test]
fn film_grain_stays_in_band() {
    let grain = film_grain(32, 32, 100);
    assert_eq!(grain.data.len(), 32 * 32 * 3);
    for &v in grain.data.iter() {
        assert!(v >= 206, "grain fell below the band: {}", v);
    }
}

#[test]
fn film_grain_zero_strength_is_white() {
    let grain = film_grain(16, 16, 0);
    for &v in grain.data.iter() {
        assert_eq!(v, 255);
    }
}

#[test]
fn film_grain_two_calls_differ() {
    let a = film_grain(64, 64, 100);
    let b = film_grain(64, 64, 100);
    assert_eq!(a.data.len(), b.data.len());
    assert!(a.data != b.data, "two grain fields were identical");
}

#[test]
fn bleach_bypass_skips_degenerate_images() {
    let empty_w = RgbBuffer { width: 0, height: 5, data: vec![] };
    assert!(bleach_bypass(&empty_w, 1).is_none());
    let empty_h = RgbBuffer { width: 5, height: 0, data: vec![] };
    assert!(bleach_bypass(&empty_h, 1).is_none());
    let ok = solid(4, 4, 90);
    assert!(bleach_bypass(&ok, 1).is_some());
}

#[test]
fn bleach_bypass_boosts_contrast_around_mid_gray() {
    // mid gray is the fixed point of the boost
    let mid = bleach_bypass(&solid(3, 3, 128), 1).unwrap();
    assert!(mid.data.iter().all(|&v| v == 128));
    // bright pixels saturate to white
    let bright = bleach_bypass(&solid(3, 3, 200), 1).unwrap();
    assert!(bright.data.iter().all(|&v| v == 255));
    // dark pixels saturate to black
    let dark = bleach_bypass(&solid(3, 3, 50), 1).unwrap();
    assert!(dark.data.iter().all(|&v| v == 0));
}

#[test]
fn bleach_bypass_keeps_dimensions() {
    let overlay = bleach_bypass(&solid(7, 5, 90), 2).unwrap();
    assert_eq!(overlay.width, 7);
    assert_eq!(overlay.height, 5);
    assert_eq!(overlay.data.len(), 7 * 5 * 3);
}

#[test]
fn scale_factor_of_two_doubles_radius() {
    // an 800x400 image previewed at 400 has scale factor 2.0
    assert_eq!(scaled_radius(1, 800, 400, 400), 2);
    assert_eq!(scaled_radius(100, 800, 400, 400), 200);
}

#[test]
fn scale_factor_uses_longer_axis() {
    assert_eq!(scaled_radius(100, 400, 800, 400), 200);
    assert_eq!(scaled_radius(100, 400, 300, 400), 100);
    assert_eq!(scaled_radius(50, 1600, 1200, 400), 200);
}
