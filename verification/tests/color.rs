use sliglight::color::{
    apply_brightness, blend_frames, build_gradient, flash_intensity, lerp, speed_to_gradient_steps,
};
use sliglight::protocol::Frame;
use sliglight::float::F32;

type Color = (u8, u8, u8);

/// An `f32` as the library's binary32 number.
fn t(x: f32) -> F32 {
    F32::from_bits(x.to_bits()).unwrap()
}

/// The value of a binary32 number of the library.
fn value(x: F32) -> f32 {
    let v = (x.m as f64) * 2f64.powi(x.e as i32);
    (if x.neg { -v } else { v }) as f32
}

/// The interpolation written with native `f32` operations.
fn native_lerp(c1: Color, c2: Color, t: f32) -> Color {
    let t = t.clamp(0.0, 1.0);
    (
        (c1.0 as f32 + (c2.0 as f32 - c1.0 as f32) * t) as u8,
        (c1.1 as f32 + (c2.1 as f32 - c1.1 as f32) * t) as u8,
        (c1.2 as f32 + (c2.2 as f32 - c1.2 as f32) * t) as u8,
    )
}

/// The flash envelope written with native `f32` operations.
fn native_flash(frame_num: i32, fade_in: i32, hold: i32, fade_out: i32) -> f32 {
    if frame_num < 0 {
        return 0.0;
    }
    if frame_num < fade_in {
        return frame_num as f32 / fade_in as f32;
    }
    let frame_num = frame_num - fade_in;
    if frame_num < hold {
        return 1.0;
    }
    let frame_num = frame_num - hold;
    if frame_num < fade_out {
        return 1.0 - frame_num as f32 / fade_out as f32;
    }
    0.0
}

#[test]
fn lerp_at_zero_returns_first_color() {
    assert_eq!(lerp((255, 0, 0), (0, 255, 0), t(0.0)), (255, 0, 0));
}

#[test]
fn lerp_at_one_returns_second_color() {
    assert_eq!(lerp((255, 0, 0), (0, 255, 0), t(1.0)), (0, 255, 0));
}

#[test]
fn lerp_clamps_out_of_range() {
    assert_eq!(lerp((255, 0, 0), (0, 255, 0), t(-1.0)), (255, 0, 0));
    assert_eq!(lerp((255, 0, 0), (0, 255, 0), t(2.0)), (0, 255, 0));
}

#[test]
fn brightness_100_is_identity() {
    assert_eq!(apply_brightness((200, 100, 50), 100), (200, 100, 50));
}

#[test]
fn brightness_0_is_black() {
    assert_eq!(apply_brightness((200, 100, 50), 0), (0, 0, 0));
}

#[test]
fn brightness_50_halves_values() {
    assert_eq!(apply_brightness((200, 100, 50), 50), (100, 50, 25));
}

#[test]
fn gradient_loops_through_colors() {
    let colors = vec![(255, 0, 0), (0, 255, 0)];
    let g = build_gradient(&colors, 4);
    assert_eq!(g.len(), 8); // 2 pairs * 4 steps
    assert_eq!(g[0], (255, 0, 0)); // start of pair 1
    assert_eq!(g[4], (0, 255, 0)); // start of pair 2
}

#[test]
fn flash_intensity_envelope() {
    // fade_in=4, hold=2, fade_out=4
    assert_eq!(value(flash_intensity(-1, 4, 2, 4)), 0.0);
    assert_eq!(value(flash_intensity(0, 4, 2, 4)), 0.0); // start of fade in
    assert_eq!(value(flash_intensity(2, 4, 2, 4)), 0.5); // midway fade in
    assert_eq!(value(flash_intensity(4, 4, 2, 4)), 1.0); // hold
    assert_eq!(value(flash_intensity(5, 4, 2, 4)), 1.0); // still hold
    assert_eq!(value(flash_intensity(10, 4, 2, 4)), 0.0); // after fade out
}

#[test]
fn flash_intensity_falling_edge() {
    assert_eq!(value(flash_intensity(7, 4, 2, 4)), 0.75);
    assert_eq!(value(flash_intensity(1, 3, 1, 5)), 1.0f32 / 3.0f32);
}

#[test]
fn gradient_steps_between_colors() {
    let g = build_gradient(&[(255, 0, 0), (0, 255, 0)], 4);
    assert_eq!(g[1], (191, 63, 0));
    assert_eq!(g[2], (127, 127, 0));
    assert_eq!(g[7], (191, 63, 0));
    assert!(build_gradient(&[], 4).is_empty());
}

#[test]
fn gradient_rounds_as_f32_does() {
    // 3/5 in f32 is a little above 0.6, so 100 - 100 * 0.6 lands just below
    // 40 and truncates to 39.
    let g = build_gradient(&[(100, 100, 100), (0, 0, 0)], 5);
    assert_eq!(g[3], (39, 39, 39));
}

#[test]
fn brightness_rounds_as_f32_does() {
    // 0.42 in f32 is a little below 0.42, so 150 * 0.42 truncates to 62.
    assert_eq!(apply_brightness((150, 150, 150), 42), (62, 62, 62));
}

#[test]
fn brightness_above_100_saturates() {
    assert_eq!(apply_brightness((200, 100, 50), 255), (255, 255, 127));
}

#[test]
fn gradient_steps_by_speed() {
    assert_eq!(speed_to_gradient_steps(0), 128);
    assert_eq!(speed_to_gradient_steps(50), 70);
    assert_eq!(speed_to_gradient_steps(100), 12);
    assert_eq!(speed_to_gradient_steps(111), 12);
}

#[test]
fn brightness_matches_native_f32_everywhere() {
    for b in 0..=255u8 {
        let f = b as f32 / 100.0;
        for c in 0..=255u8 {
            let expected = (c as f32 * f) as u8;
            assert_eq!(apply_brightness((c, c, c), b), (expected, expected, expected), "{c} {b}");
        }
    }
}

#[test]
fn gradient_matches_native_f32() {
    let palettes: [&[Color]; 3] = [
        &[(100, 100, 100), (0, 0, 0)],
        &[(255, 0, 0), (0, 255, 0), (0, 0, 255), (13, 77, 201)],
        &[(1, 2, 3), (254, 128, 7), (37, 255, 0)],
    ];
    for colors in palettes {
        for steps in 1..=130usize {
            let g = build_gradient(colors, steps);
            assert_eq!(g.len(), colors.len() * steps);
            for i in 0..colors.len() {
                let c1 = colors[i];
                let c2 = colors[(i + 1) % colors.len()];
                for step in 0..steps {
                    let expected = native_lerp(c1, c2, step as f32 / steps as f32);
                    assert_eq!(g[i * steps + step], expected, "{steps} {i} {step}");
                }
            }
        }
    }
}

#[test]
fn lerp_matches_native_f32() {
    let pairs: [(Color, Color); 4] = [
        ((255, 0, 0), (0, 255, 0)),
        ((0, 0, 0), (100, 200, 255)),
        ((17, 250, 3), (240, 9, 128)),
        ((255, 255, 255), (0, 0, 0)),
    ];
    let mut bits: u32 = 0xbf80_0000; // -1.0
    let mut samples: Vec<f32> = Vec::new();
    while bits < 0xbf90_0000 {
        samples.push(f32::from_bits(bits));
        bits += 0x1_0001;
    }
    let mut x: u32 = 0;
    while x < 0x4000_0000 {
        samples.push(f32::from_bits(x));
        x += 0x3_7af1;
    }
    for k in 0..=1000 {
        samples.push(k as f32 / 1000.0);
    }
    for (c1, c2) in pairs {
        for &s in &samples {
            assert_eq!(lerp(c1, c2, t(s)), native_lerp(c1, c2, s), "{s}");
        }
    }
}

#[test]
fn flash_matches_native_f32() {
    for fade_in in 1..12 {
        for hold in 1..4 {
            for fade_out in 1..45 {
                for frame in -3..(fade_in + hold + fade_out + 3) {
                    let got = value(flash_intensity(frame, fade_in, hold, fade_out));
                    assert_eq!(got, native_flash(frame, fade_in, hold, fade_out));
                }
            }
        }
    }
}

#[test]
fn bit_patterns_decode() {
    assert!(F32::from_bits(f32::NAN.to_bits()).is_none());
    assert!(F32::from_bits(f32::INFINITY.to_bits()).is_none());
    assert_eq!(value(t(0.1)), 0.1);
    assert_eq!(value(t(-3.5)), -3.5);
    assert_eq!(value(t(f32::MIN_POSITIVE / 8.0)), f32::MIN_POSITIVE / 8.0);
    assert_eq!(value(t(-0.0)), 0.0);
}

#[test]
fn lerp_beyond_one_returns_second_color() {
    assert_eq!(lerp((17, 250, 3), (240, 9, 128), t(1.5)), (240, 9, 128));
    assert_eq!(lerp((17, 250, 3), (240, 9, 128), t(-0.25)), (17, 250, 3));
}

#[test]
fn blend_frames_at_positions() {
    let a = Frame::uniform((255, 0, 0));
    let b = Frame::uniform((0, 255, 0));
    assert_eq!(blend_frames(&a, &b, t(0.0)).upper, a.upper);
    assert_eq!(blend_frames(&a, &b, t(1.0)).lower, b.lower);
    let mid = blend_frames(&a, &b, t(0.25));
    assert!(mid.upper.iter().all(|c| *c == native_lerp((255, 0, 0), (0, 255, 0), 0.25)));
    let short = Frame { upper: vec![(10, 20, 30)], lower: vec![] };
    let blended = blend_frames(&short, &b, t(0.5));
    assert_eq!(blended.upper, vec![native_lerp((10, 20, 30), (0, 255, 0), 0.5)]);
    assert!(blended.lower.is_empty());
}

#[test]
fn interpolation_stays_between_endpoints() {
    let c1 = (17, 250, 3);
    let c2 = (240, 9, 128);
    for k in 0..=64 {
        let c = lerp(c1, c2, t(k as f32 / 64.0));
        assert!(17 <= c.0 && c.0 <= 240);
        assert!(9 <= c.1 && c.1 <= 250);
        assert!(3 <= c.2 && c.2 <= 128);
    }
}

#[test]
fn flash_stays_in_unit_range() {
    for frame in -5..80 {
        let v = value(flash_intensity(frame, 7, 2, 33));
        assert!((0.0..=1.0).contains(&v), "{frame} {v}");
    }
}

#[test]
fn brightness_is_the_floor_or_one_less_and_monotone() {
    for c in 0..=255u8 {
        let mut previous = 0u8;
        for b in 0..=100u8 {
            let r = apply_brightness((c, c, c), b).0;
            let exact = c as u32 * b as u32 / 100;
            assert!(r as u32 <= exact && exact <= r as u32 + 1, "{c} {b}");
            assert!(previous <= r, "{c} {b}");
            previous = r;
        }
    }
}

#[test]
fn flash_stays_in_unit_range_for_long_fades() {
    for frame in [0, 1, 1_000_000, 999_999_999, 1_073_741_823] {
        let v = value(flash_intensity(frame, 1 << 30, 1, 1 << 30));
        assert!((0.0..=1.0).contains(&v), "{frame} {v}");
    }
    let late = value(flash_intensity(1_500_000_000, 1 << 29, 1, 1 << 30));
    assert!((0.0..=1.0).contains(&late));
}
