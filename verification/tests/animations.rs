use sliglight::animations::{Animation, Mode, Zone, BLACK, RAINBOW};
use sliglight::engine::{after_send, preview_colors, Event, FrameOutcome};
use sliglight::protocol::{Frame, LOWER_COUNT, UPPER_COUNT};

#[test]
fn solid_produces_uniform_frame() {
    let mut anim = Animation::new(Mode::Solid, vec![(255, 0, 0)], 100, 50, Zone::Both);
    let f = anim.next_frame();
    assert!(f.upper.iter().all(|c| *c == (255, 0, 0)));
    assert!(f.lower.iter().all(|c| *c == (255, 0, 0)));
}

#[test]
fn zone_upper_blacks_out_lower() {
    let mut anim = Animation::new(Mode::Solid, vec![(255, 0, 0)], 100, 50, Zone::Upper);
    let f = anim.next_frame();
    assert!(f.upper.iter().all(|c| *c == (255, 0, 0)));
    assert!(f.lower.iter().all(|c| *c == BLACK));
}

#[test]
fn zone_lower_blacks_out_upper() {
    let mut anim = Animation::new(Mode::Solid, vec![(255, 0, 0)], 100, 50, Zone::Lower);
    let f = anim.next_frame();
    assert!(f.upper.iter().all(|c| *c == BLACK));
    assert!(f.lower.iter().all(|c| *c == (255, 0, 0)));
}

#[test]
fn blink_alternates_on_off() {
    let mut anim = Animation::new(Mode::Blink, vec![(255, 0, 0)], 100, 50, Zone::Both);
    let mut saw_on = false;
    let mut saw_off = false;
    for _ in 0..100 {
        let f = anim.next_frame();
        if f.upper[0] == (255, 0, 0) {
            saw_on = true;
        }
        if f.upper[0] == BLACK {
            saw_off = true;
        }
    }
    assert!(saw_on && saw_off);
}

#[test]
fn cycle_with_single_color_uses_rainbow() {
    let mut anim = Animation::new(Mode::Cycle, vec![(255, 0, 0)], 100, 50, Zone::Both);
    let f1 = anim.next_frame();
    for _ in 0..50 {
        anim.next_frame();
    }
    let f2 = anim.next_frame();
    assert_ne!(f1.upper[0], f2.upper[0]);
}

#[test]
fn mode_from_name_roundtrip() {
    for mode in Mode::ALL {
        assert_eq!(Mode::from_name(mode.name()), Some(*mode));
    }
    assert_eq!(Mode::from_name("garbage"), None);
}

#[test]
fn mode_icons_and_descriptions() {
    assert_eq!(Mode::Lightning.icon(), "\u{26a1}");
    assert_eq!(Mode::AudioReactive.name(), "audio");
    assert_eq!(Mode::AudioReactive.description(), "VU meter reacting to mic input");
    assert_eq!(Mode::from_name("Solid"), None);
    assert_eq!(Mode::from_name("audio"), Some(Mode::AudioReactive));
}

#[test]
fn frames_have_one_color_per_led() {
    for mode in Mode::ALL {
        let mut anim = Animation::new(*mode, vec![(10, 20, 30), (40, 50, 60)], 100, 50, Zone::Both);
        for _ in 0..5 {
            let f = anim.next_frame();
            assert_eq!(f.upper.len(), UPPER_COUNT);
            assert_eq!(f.lower.len(), LOWER_COUNT);
        }
    }
}

#[test]
fn empty_palette_defaults_to_red() {
    let mut anim = Animation::new(Mode::Solid, vec![], 50, 50, Zone::Both);
    let f = anim.next_frame();
    assert_eq!(f.upper[0], (127, 0, 0));
}

#[test]
fn blink_schedule_at_speed_50() {
    // on = (101 - 50) * 4 / 10 = 20 frames, off = 20 * 4 / 10 = 8 frames
    let mut anim = Animation::new(Mode::Blink, vec![(255, 0, 0), (0, 0, 255)], 100, 50, Zone::Both);
    let frames: Vec<_> = (0..56).map(|_| anim.next_frame().upper[0]).collect();
    assert!(frames[..20].iter().all(|c| *c == (255, 0, 0)));
    assert!(frames[20..28].iter().all(|c| *c == BLACK));
    assert!(frames[28..48].iter().all(|c| *c == (0, 0, 255)));
    assert!(frames[48..56].iter().all(|c| *c == BLACK));
}

#[test]
fn cycle_starts_at_first_rainbow_color_and_repeats() {
    // speed 100: 12 steps per pair, 9 rainbow colors
    let mut anim = Animation::new(Mode::Cycle, vec![], 100, 100, Zone::Both);
    let first = anim.next_frame();
    assert_eq!(first.upper[0], RAINBOW[0]);
    for _ in 1..12 {
        anim.next_frame();
    }
    assert_eq!(anim.next_frame().upper[0], RAINBOW[1]);
    for _ in 13..108 {
        anim.next_frame();
    }
    assert_eq!(anim.next_frame().upper[0], first.upper[0]);
}

#[test]
fn wave_offsets_lower_ring_by_half_a_pass() {
    // two colors, speed 100: 12 steps per pair, 24 entries, lower ring 12 ahead
    let mut anim = Animation::new(Mode::Wave, vec![(200, 0, 0), (0, 0, 200)], 100, 100, Zone::Both);
    let f = anim.next_frame();
    assert_eq!(f.upper[0], (200, 0, 0));
    assert_eq!(f.lower[0], (0, 0, 200));
}

#[test]
fn pulse_rises_from_black() {
    // speed 0: fade in 10, hold 3, fade out 40, pause 20
    let mut anim = Animation::new(Mode::Pulse, vec![(200, 100, 0)], 100, 0, Zone::Both);
    let f0 = anim.next_frame();
    assert_eq!(f0.upper[0], BLACK);
    let f1 = anim.next_frame();
    assert_eq!(f1.upper[0], (20, 10, 0));
    for _ in 2..10 {
        anim.next_frame();
    }
    let full = anim.next_frame();
    assert_eq!(full.upper[0], (200, 100, 0));
    assert_eq!(full.lower[0], (200, 100, 0));
}

#[test]
fn lightning_lower_ring_lags() {
    // speed 0: fade in 10, lower ring 5 frames behind
    let mut anim = Animation::new(Mode::Lightning, vec![(100, 100, 100)], 100, 0, Zone::Both);
    for _ in 0..5 {
        anim.next_frame();
    }
    let f = anim.next_frame();
    assert_eq!(f.upper[0], (50, 50, 50));
    assert_eq!(f.lower[0], BLACK);
}

#[test]
fn pulse_falls_as_f32_does() {
    // speed 100: fade in 3, hold 1, fade out 5; frame 7 is 1 - 3/5 in f32
    let mut anim = Animation::new(Mode::Pulse, vec![(100, 100, 100)], 100, 100, Zone::Both);
    for _ in 0..7 {
        anim.next_frame();
    }
    let f = anim.next_frame();
    assert_eq!(f.upper[0], (39, 39, 39));
    assert_eq!(f.lower[0], (39, 39, 39));
}

#[test]
fn lightning_falls_as_f32_does() {
    // speed 100: the upper ring is at 1 - 3/5, the lower one a frame behind
    let mut anim = Animation::new(Mode::Lightning, vec![(100, 100, 100)], 100, 100, Zone::Both);
    for _ in 0..7 {
        anim.next_frame();
    }
    let f = anim.next_frame();
    assert_eq!(f.upper[0], (39, 39, 39));
    assert_eq!(f.lower[0], (60, 60, 60));
}

#[test]
fn audio_frame_fills_lower_ring_first() {
    let anim = Animation::new(Mode::AudioReactive, vec![(0, 255, 0)], 100, 50, Zone::Both);
    let f = anim.audio_reactive_frame_lit(10);
    assert!(f.lower[..10].iter().all(|c| *c == (0, 255, 0)));
    assert!(f.lower[10..].iter().all(|c| *c == BLACK));
    assert!(f.upper.iter().all(|c| *c == BLACK));
    let full = anim.audio_reactive_frame_lit(UPPER_COUNT + LOWER_COUNT);
    assert!(full.upper.iter().all(|c| *c == (0, 255, 0)));
    let upper_only = Animation::new(Mode::AudioReactive, vec![(0, 255, 0)], 100, 50, Zone::Upper);
    let g = upper_only.audio_reactive_frame_lit(60);
    assert!(g.lower.iter().all(|c| *c == BLACK));
    assert!(g.upper[..6].iter().all(|c| *c == (0, 255, 0)));
    assert_eq!(g.upper[6], BLACK);
}

#[test]
fn argument_checks() {
    assert!(Animation::can_build(Mode::Cycle, &vec![], 111));
    assert!(!Animation::can_build(Mode::Wave, &vec![], 112));
    assert!(Animation::can_build(Mode::Blink, &vec![], 255));
    let fresh = Animation::new(Mode::Cycle, vec![], 100, 50, Zone::Both);
    assert!(fresh.can_step());
    let fast_blink = Animation::new(Mode::Blink, vec![], 100, 102, Zone::Both);
    assert!(!fast_blink.can_step());
    let ok_blink = Animation::new(Mode::Blink, vec![], 100, 101, Zone::Both);
    assert!(ok_blink.can_step());
}

const ALL_MODES: [Mode; 7] = [
    Mode::Solid,
    Mode::Blink,
    Mode::Cycle,
    Mode::Wave,
    Mode::Lightning,
    Mode::Pulse,
    Mode::AudioReactive,
];

#[test]
fn brightness_zero_is_dark_in_every_mode() {
    for mode in ALL_MODES {
        for colors in [vec![], vec![(255, 255, 255)], vec![(200, 10, 90), (3, 250, 77)]] {
            let mut anim = Animation::new(mode, colors, 0, 100, Zone::Both);
            for _ in 0..60 {
                let f = anim.next_frame();
                assert!(f.upper.iter().chain(f.lower.iter()).all(|c| *c == BLACK));
            }
        }
    }
}

#[test]
fn zone_only_masks_the_other_ring() {
    for mode in ALL_MODES {
        let colors = vec![(200, 10, 90), (3, 250, 77), (40, 40, 255)];
        let mut both = Animation::new(mode, colors.clone(), 80, 60, Zone::Both);
        let mut upper = Animation::new(mode, colors.clone(), 80, 60, Zone::Upper);
        let mut lower = Animation::new(mode, colors, 80, 60, Zone::Lower);
        for _ in 0..200 {
            let fb = both.next_frame();
            let fu = upper.next_frame();
            let fl = lower.next_frame();
            assert_eq!(fu.upper, fb.upper);
            assert!(fu.lower.iter().all(|c| *c == BLACK));
            assert_eq!(fl.lower, fb.lower);
            assert!(fl.upper.iter().all(|c| *c == BLACK));
        }
    }
}

#[test]
fn preview_is_first_led_of_each_ring() {
    let f = Frame { upper: vec![(1, 2, 3), (4, 5, 6)], lower: vec![(7, 8, 9)] };
    assert_eq!(preview_colors(&f), ((1, 2, 3), (7, 8, 9)));
    let empty = Frame { upper: vec![], lower: vec![(7, 8, 9)] };
    assert_eq!(preview_colors(&empty), ((0, 0, 0), (7, 8, 9)));
}

#[test]
fn engine_goes_on_after_a_sent_frame_and_stops_on_error() {
    let f = Frame { upper: vec![(1, 2, 3)], lower: vec![(7, 8, 9)] };
    assert!(matches!(
        after_send(&f, Ok(())),
        FrameOutcome::Continue(Event::FrameSent { upper: (1, 2, 3), lower: (7, 8, 9) })
    ));
    match after_send(&f, Err("device gone".to_string())) {
        FrameOutcome::Stop(Event::Error(msg)) => assert_eq!(msg, "device gone"),
        other => panic!("unexpected outcome {other:?}"),
    }
}

#[test]
fn wave_step_bound_is_half_the_gradient() {
    let fresh = Animation::new(Mode::Wave, vec![], 100, 50, Zone::Both);
    assert!(fresh.can_step());
    let solid = Animation::new(Mode::Solid, vec![(1, 2, 3)], 100, 50, Zone::Both);
    assert!(solid.can_step());
}
