//! Animation frame generators for the QuadCast 2S RGB modes.
//!
//! An [`Animation`] holds its settings and a frame counter; every call of
//! [`Animation::next_frame`] produces the next frame (about thirty a second).

use vstd::prelude::*;
use crate::text::str_equal;
use crate::protocol::{Color, Frame, LOWER_COUNT, UPPER_COUNT, repeat, vec_of};
use crate::color::{
    apply_brightness, build_gradient, flash_intensity, flash_level, gradient, gradient_speed_ok,
    gradient_steps, lemma_brightness_laws, lemma_flash_envelope, lemma_lerp_end, lemma_lerp_start,
    lerp, lerp_spec, scaled, speed_to_gradient_steps,
};
use crate::float::{FloatVal, fone, fzero};

verus! {

/// All supported animation modes.
#[derive(Debug, Clone, Copy, PartialEq, Eq, Hash, Structural)]
pub enum Mode {
    Solid,
    Blink,
    Cycle,
    Wave,
    Lightning,
    Pulse,
    AudioReactive,
}

/// The name of a mode, as used on the command line and in profiles.
pub open spec fn mode_name(m: Mode) -> Seq<char> {
    match m {
        Mode::Solid => "solid"@,
        Mode::Blink => "blink"@,
        Mode::Cycle => "cycle"@,
        Mode::Wave => "wave"@,
        Mode::Lightning => "lightning"@,
        Mode::Pulse => "pulse"@,
        Mode::AudioReactive => "audio"@,
    }
}

/// The symbol shown for a mode.
pub open spec fn mode_icon(m: Mode) -> Seq<char> {
    match m {
        Mode::Solid => "\u{25cf}"@,
        Mode::Blink => "\u{25cc}"@,
        Mode::Cycle => "\u{1f308}"@,
        Mode::Wave => "\u{2248}"@,
        Mode::Lightning => "\u{26a1}"@,
        Mode::Pulse => "\u{2665}"@,
        Mode::AudioReactive => "\u{1f3a4}"@,
    }
}

/// The one-line description of a mode.
pub open spec fn mode_description(m: Mode) -> Seq<char> {
    match m {
        Mode::Solid => "Static color"@,
        Mode::Blink => "Blinking effect"@,
        Mode::Cycle => "Rainbow cycle"@,
        Mode::Wave => "Wave animation"@,
        Mode::Lightning => "Lightning strikes"@,
        Mode::Pulse => "Pulsing glow"@,
        Mode::AudioReactive => "VU meter reacting to mic input"@,
    }
}

/// The mode with a given name, if any.
pub open spec fn mode_from_name(s: Seq<char>) -> Option<Mode> {
    if s == "solid"@ {
        Some(Mode::Solid)
    } else if s == "blink"@ {
        Some(Mode::Blink)
    } else if s == "cycle"@ {
        Some(Mode::Cycle)
    } else if s == "wave"@ {
        Some(Mode::Wave)
    } else if s == "lightning"@ {
        Some(Mode::Lightning)
    } else if s == "pulse"@ {
        Some(Mode::Pulse)
    } else if s == "audio"@ {
        Some(Mode::AudioReactive)
    } else {
        None
    }
}

impl Mode {
    /// Every mode, in the order the panel shows them.
    pub const ALL: &'static [Mode; 7] = &[
        Mode::Solid,
        Mode::Blink,
        Mode::Cycle,
        Mode::Wave,
        Mode::Lightning,
        Mode::Pulse,
        Mode::AudioReactive,
    ];

    /// The mode's name, as used on the command line.
    pub fn name(&self) -> (s: &'static str)
        ensures
            s@ == mode_name(*self),
    {
        match self {
            Mode::Solid => "solid",
            Mode::Blink => "blink",
            Mode::Cycle => "cycle",
            Mode::Wave => "wave",
            Mode::Lightning => "lightning",
            Mode::Pulse => "pulse",
            Mode::AudioReactive => "audio",
        }
    }

    /// The symbol shown for the mode.
    pub fn icon(&self) -> (s: &'static str)
        ensures
            s@ == mode_icon(*self),
    {
        match self {
            Mode::Solid => "\u{25cf}",
            Mode::Blink => "\u{25cc}",
            Mode::Cycle => "\u{1f308}",
            Mode::Wave => "\u{2248}",
            Mode::Lightning => "\u{26a1}",
            Mode::Pulse => "\u{2665}",
            Mode::AudioReactive => "\u{1f3a4}",
        }
    }

    /// A one-line description of the mode.
    pub fn description(&self) -> (s: &'static str)
        ensures
            s@ == mode_description(*self),
    {
        match self {
            Mode::Solid => "Static color",
            Mode::Blink => "Blinking effect",
            Mode::Cycle => "Rainbow cycle",
            Mode::Wave => "Wave animation",
            Mode::Lightning => "Lightning strikes",
            Mode::Pulse => "Pulsing glow",
            Mode::AudioReactive => "VU meter reacting to mic input",
        }
    }

    /// The mode with the given name, if any.
    pub fn from_name(s: &str) -> (m: Option<Self>)
        ensures
            m == mode_from_name(s@),
    {
        if str_equal(s, "solid") {
            Some(Mode::Solid)
        } else if str_equal(s, "blink") {
            Some(Mode::Blink)
        } else if str_equal(s, "cycle") {
            Some(Mode::Cycle)
        } else if str_equal(s, "wave") {
            Some(Mode::Wave)
        } else if str_equal(s, "lightning") {
            Some(Mode::Lightning)
        } else if str_equal(s, "pulse") {
            Some(Mode::Pulse)
        } else if str_equal(s, "audio") {
            Some(Mode::AudioReactive)
        } else {
            None
        }
    }
}

/// Looking a mode up by its own name gives the mode back, and a name that
/// is found is the name of the mode found.
pub proof fn lemma_mode_name_roundtrip(m: Mode, s: Seq<char>)
    ensures
        mode_from_name(mode_name(m)) == Some(m),
        mode_from_name(s) == Some(m) ==> s == mode_name(m),
{
    reveal_strlit("solid");
    reveal_strlit("blink");
    reveal_strlit("cycle");
    reveal_strlit("wave");
    reveal_strlit("lightning");
    reveal_strlit("pulse");
    reveal_strlit("audio");
    let n = mode_name(m);
    assert(n[0] != "solid"@[0] ==> n != "solid"@);
    assert(n[0] != "blink"@[0] ==> n != "blink"@);
    assert(n[0] != "cycle"@[0] ==> n != "cycle"@);
    assert(n[0] != "wave"@[0] ==> n != "wave"@);
    assert(n[0] != "lightning"@[0] ==> n != "lightning"@);
    assert(n[0] != "pulse"@[0] ==> n != "pulse"@);
}

/// Every mode goes by a fixed command-line name, and looking that name up
/// gives the mode: `solid`, `blink`, `cycle`, `wave`, `lightning`, `pulse`,
/// `audio`.
pub proof fn lemma_mode_names()
    ensures
        mode_name(Mode::Solid) == "solid"@,
        mode_name(Mode::Blink) == "blink"@,
        mode_name(Mode::Cycle) == "cycle"@,
        mode_name(Mode::Wave) == "wave"@,
        mode_name(Mode::Lightning) == "lightning"@,
        mode_name(Mode::Pulse) == "pulse"@,
        mode_name(Mode::AudioReactive) == "audio"@,
        mode_from_name("solid"@) == Some(Mode::Solid),
        mode_from_name("blink"@) == Some(Mode::Blink),
        mode_from_name("cycle"@) == Some(Mode::Cycle),
        mode_from_name("wave"@) == Some(Mode::Wave),
        mode_from_name("lightning"@) == Some(Mode::Lightning),
        mode_from_name("pulse"@) == Some(Mode::Pulse),
        mode_from_name("audio"@) == Some(Mode::AudioReactive),
{
    lemma_mode_name_roundtrip(Mode::Solid, "solid"@);
    lemma_mode_name_roundtrip(Mode::Blink, "blink"@);
    lemma_mode_name_roundtrip(Mode::Cycle, "cycle"@);
    lemma_mode_name_roundtrip(Mode::Wave, "wave"@);
    lemma_mode_name_roundtrip(Mode::Lightning, "lightning"@);
    lemma_mode_name_roundtrip(Mode::Pulse, "pulse"@);
    lemma_mode_name_roundtrip(Mode::AudioReactive, "audio"@);
}

/// All LEDs off.
pub const BLACK: Color = (0, 0, 0);

/// The palette of the cycle and wave modes when fewer than two colors are set.
pub const RAINBOW: &'static [Color; 9] = &[
    (255, 0, 0),
    (255, 0, 158),
    (205, 0, 255),
    (43, 0, 255),
    (0, 104, 255),
    (0, 255, 255),
    (0, 255, 103),
    (50, 255, 0),
    (206, 255, 0),
];

/// The rainbow palette as a sequence.
pub open spec fn rainbow() -> Seq<Color> {
    seq![
        (255u8, 0u8, 0u8),
        (255u8, 0u8, 158u8),
        (205u8, 0u8, 255u8),
        (43u8, 0u8, 255u8),
        (0u8, 104u8, 255u8),
        (0u8, 255u8, 255u8),
        (0u8, 255u8, 103u8),
        (50u8, 255u8, 0u8),
        (206u8, 255u8, 0u8),
    ]
}

/// Zone selection for LED masking.
#[derive(Debug, Clone, Copy, PartialEq, Eq, Hash, Structural)]
pub enum Zone {
    Both,
    Upper,
    Lower,
}

/// Stateful animation that produces frames.
pub struct Animation {
    mode: Mode,
    colors: Vec<Color>,
    brightness: u8,
    speed: u8,
    zone: Zone,
    frame_num: usize,
    gradient: Vec<Color>,
    color_idx: usize,
}

/// The abstract state of an [`Animation`].
pub struct AnimationView {
    pub mode: Mode,
    pub colors: Seq<Color>,
    pub brightness: u8,
    pub speed: u8,
    pub zone: Zone,
    /// Frames produced so far (in the modes that count them).
    pub frame_num: nat,
    /// Precomputed, brightness-scaled gradient of the cycle and wave modes.
    pub gradient: Seq<Color>,
    /// Index into `colors` of the current color (blink, lightning, pulse).
    pub color_idx: nat,
}

/// A frame as its upper and lower LED colors.
pub type FrameView = (Seq<Color>, Seq<Color>);

/// The colors used: the given ones, or red alone when none is given.
pub open spec fn effective_colors(colors: Seq<Color>) -> Seq<Color> {
    if colors.len() == 0 {
        seq![(255u8, 0u8, 0u8)]
    } else {
        colors
    }
}

/// The palette of the gradient modes: the rainbow when fewer than two
/// colors are given.
pub open spec fn gradient_palette(colors: Seq<Color>) -> Seq<Color> {
    if colors.len() < 2 {
        rainbow()
    } else {
        colors
    }
}

/// Every color of `s` scaled by `brightness` percent.
pub open spec fn scaled_seq(s: Seq<Color>, brightness: u8) -> Seq<Color> {
    Seq::new(s.len(), |k: int| scaled(s[k], brightness))
}

/// The gradient precomputed for a mode: for cycle and wave, the looping
/// gradient through the palette with the speed's step count, scaled by
/// brightness; empty for the other modes.
pub open spec fn mode_gradient(mode: Mode, colors: Seq<Color>, brightness: u8, speed: u8) -> Seq<
    Color,
> {
    if mode == Mode::Cycle || mode == Mode::Wave {
        scaled_seq(
            gradient(gradient_palette(colors), gradient_steps(speed) as nat),
            brightness,
        )
    } else {
        Seq::empty()
    }
}

/// The state of a fresh animation.
pub open spec fn initial_state(
    mode: Mode,
    colors: Seq<Color>,
    brightness: u8,
    speed: u8,
    zone: Zone,
) -> AnimationView {
    AnimationView {
        mode,
        colors: effective_colors(colors),
        brightness,
        speed,
        zone,
        frame_num: 0,
        gradient: mode_gradient(mode, effective_colors(colors), brightness, speed),
        color_idx: 0,
    }
}

/// A frame with every LED set to `c`.
pub open spec fn uniform_view(c: Color) -> FrameView {
    (repeat(c, UPPER_COUNT as nat), repeat(c, LOWER_COUNT as nat))
}

/// The larger of two integers.
pub open spec fn at_least(x: int, lo: int) -> int {
    if x < lo {
        lo
    } else {
        x
    }
}

/// Frames a blink stays on.
pub open spec fn blink_on_frames(speed: u8) -> int {
    at_least((101 - speed) * 4 / 10, 1)
}

/// Frames a blink stays off.
pub open spec fn blink_off_frames(speed: u8) -> int {
    at_least(blink_on_frames(speed) * 4 / 10, 1)
}

/// Length of one blink (on, then off).
pub open spec fn blink_period(speed: u8) -> int {
    blink_on_frames(speed) + blink_off_frames(speed)
}

/// Frames of the rising edge of a flash.
pub open spec fn fade_in_frames(speed: u8) -> int {
    at_least(10 - speed * 7 / 100, 2)
}

/// Frames a flash stays at full intensity.
pub open spec fn hold_frames(speed: u8) -> int {
    at_least(3 - speed * 2 / 100, 1)
}

/// Frames of the falling edge of a flash.
pub open spec fn fade_out_frames(speed: u8) -> int {
    at_least(40 - speed * 35 / 100, 5)
}

/// Dark frames between two flashes.
pub open spec fn pause_frames(speed: u8) -> int {
    at_least(20 - speed * 17 / 100, 3)
}

/// Frames the lower ring lags the upper ring in lightning mode.
pub open spec fn lower_delay_frames(speed: u8) -> int {
    at_least(fade_in_frames(speed) / 2, 1)
}

/// Length of one lightning strike, pause included.
pub open spec fn lightning_period(speed: u8) -> int {
    fade_in_frames(speed) + hold_frames(speed) + fade_out_frames(speed) + lower_delay_frames(
        speed,
    ) + pause_frames(speed)
}

/// Length of one pulse, pause included.
pub open spec fn pulse_period(speed: u8) -> int {
    fade_in_frames(speed) + hold_frames(speed) + fade_out_frames(speed) + pause_frames(speed)
}

/// The flash envelope of the lightning and pulse modes at frame `pos`.
pub open spec fn flash_at(speed: u8, pos: int) -> FloatVal {
    flash_level(pos, fade_in_frames(speed), hold_frames(speed), fade_out_frames(speed))
}

/// `c` dimmed to the intensity `level`, as `lerp(BLACK, c, level)`.
pub open spec fn dimmed(c: Color, level: FloatVal) -> Color {
    lerp_spec(BLACK, c, level)
}

/// The color the blink, lightning and pulse modes currently show.
pub open spec fn current_color(v: AnimationView) -> Color {
    scaled(v.colors[(v.color_idx % v.colors.len()) as int], v.brightness)
}

/// The frame a mode shows in state `v`, before zone masking.
pub open spec fn raw_frame(v: AnimationView) -> FrameView {
    let f = v.frame_num as int;
    let t = v.gradient.len() as int;
    match v.mode {
        Mode::Blink => {
            if f % blink_period(v.speed) < blink_on_frames(v.speed) {
                uniform_view(current_color(v))
            } else {
                uniform_view(BLACK)
            }
        },
        Mode::Cycle => {
            if t == 0 {
                uniform_view(BLACK)
            } else {
                uniform_view(v.gradient[f % t])
            }
        },
        Mode::Wave => {
            if t == 0 {
                uniform_view(BLACK)
            } else {
                (
                    repeat(v.gradient[f % t], UPPER_COUNT as nat),
                    repeat(v.gradient[(f + t / 2) % t], LOWER_COUNT as nat),
                )
            }
        },
        Mode::Lightning => {
            let pos = f % lightning_period(v.speed);
            (
                repeat(dimmed(current_color(v), flash_at(v.speed, pos)), UPPER_COUNT as nat),
                repeat(
                    dimmed(current_color(v), flash_at(v.speed, pos - lower_delay_frames(v.speed))),
                    LOWER_COUNT as nat,
                ),
            )
        },
        Mode::Pulse => {
            let pos = f % pulse_period(v.speed);
            uniform_view(dimmed(current_color(v), flash_at(v.speed, pos)))
        },
        _ => uniform_view(scaled(v.colors[0], v.brightness)),
    }
}

/// A frame with the LEDs outside `zone` turned off.
pub open spec fn masked(zone: Zone, fr: FrameView) -> FrameView {
    match zone {
        Zone::Both => fr,
        Zone::Upper => (fr.0, repeat(BLACK, LOWER_COUNT as nat)),
        Zone::Lower => (repeat(BLACK, UPPER_COUNT as nat), fr.1),
    }
}

/// The frame shown in state `v`.
pub open spec fn frame_of(v: AnimationView) -> FrameView {
    masked(v.zone, raw_frame(v))
}

/// The frame counter after one step of a periodic mode: the color index
/// moves on at the end of every period.
pub open spec fn tick(v: AnimationView, period: int) -> AnimationView {
    let f = v.frame_num + 1;
    AnimationView {
        frame_num: f,
        color_idx: if (f as int) % period == 0 {
            v.color_idx + 1
        } else {
            v.color_idx
        },
        ..v
    }
}

/// The state after producing one frame.
pub open spec fn advance(v: AnimationView) -> AnimationView {
    match v.mode {
        Mode::Blink => tick(v, blink_period(v.speed)),
        Mode::Lightning => tick(v, lightning_period(v.speed)),
        Mode::Pulse => tick(v, pulse_period(v.speed)),
        Mode::Cycle | Mode::Wave => {
            if v.gradient.len() == 0 {
                v
            } else {
                AnimationView { frame_num: v.frame_num + 1, ..v }
            }
        },
        _ => v,
    }
}

/// The period after which a mode moves to its next color (one for the
/// modes that do not change color).
pub open spec fn color_period(v: AnimationView) -> int {
    match v.mode {
        Mode::Blink => blink_period(v.speed),
        Mode::Lightning => lightning_period(v.speed),
        Mode::Pulse => pulse_period(v.speed),
        _ => 1,
    }
}

/// The state invariant: at least one color, and in the blink, lightning and
/// pulse modes the color index counts the completed periods.
pub open spec fn animation_wf(v: AnimationView) -> bool {
    &&& v.colors.len() >= 1
    &&& v.gradient == mode_gradient(v.mode, v.colors, v.brightness, v.speed)
    &&& (v.mode == Mode::Blink || v.mode == Mode::Lightning || v.mode == Mode::Pulse) ==> v.color_idx
        == (v.frame_num as int) / color_period(v)
    &&& !(v.mode == Mode::Blink || v.mode == Mode::Lightning || v.mode == Mode::Pulse) ==> v.color_idx
        == 0
}

/// The arguments for which a new animation can be built: the gradient modes
/// need a speed of at most 111 (and a palette whose gradient fits in memory).
pub open spec fn new_args_ok(mode: Mode, colors: Seq<Color>, speed: u8) -> bool {
    (mode == Mode::Cycle || mode == Mode::Wave) ==> {
        &&& gradient_speed_ok(speed)
        &&& gradient_palette(effective_colors(colors)).len() * 128 <= usize::MAX
    }
}

/// The states in which the next frame can be produced: blink needs a speed
/// of at most 101; the modes that count frames need a counter below
/// `usize::MAX`, and wave also the counter plus half the gradient length
/// within `usize`.
pub open spec fn step_ok(v: AnimationView) -> bool {
    match v.mode {
        Mode::Blink => v.speed <= 101 && v.frame_num < usize::MAX,
        Mode::Cycle | Mode::Lightning | Mode::Pulse => v.frame_num < usize::MAX,
        Mode::Wave => v.frame_num < usize::MAX && v.frame_num + v.gradient.len() / 2 <= usize::MAX,
        _ => true,
    }
}

impl View for Animation {
    type V = AnimationView;

    closed spec fn view(&self) -> AnimationView {
        AnimationView {
            mode: self.mode,
            colors: self.colors@,
            brightness: self.brightness,
            speed: self.speed,
            zone: self.zone,
            frame_num: self.frame_num as nat,
            gradient: self.gradient@,
            color_idx: self.color_idx as nat,
        }
    }
}

/// The frame of the audio-reactive mode for `lit` lit LEDs: the lower ring
/// fills first, then the upper ring, in the first color at the set brightness.
pub open spec fn vu_frame(v: AnimationView, lit: int) -> FrameView {
    let base = scaled(v.colors[0], v.brightness);
    (
        Seq::new(UPPER_COUNT as nat, |i: int| if LOWER_COUNT + i < lit { base } else { BLACK }),
        Seq::new(LOWER_COUNT as nat, |i: int| if i < lit { base } else { BLACK }),
    )
}

proof fn lemma_tick_div(f: int, p: int)
    requires
        0 <= f,
        0 < p,
    ensures
        (f + 1) / p == f / p + (if (f + 1) % p == 0 {
            1int
        } else {
            0int
        }),
{
    vstd::arithmetic::div_mod::lemma_fundamental_div_mod(f, p);
    vstd::arithmetic::div_mod::lemma_fundamental_div_mod(f + 1, p);
    vstd::arithmetic::div_mod::lemma_mod_pos_bound(f, p);
    vstd::arithmetic::div_mod::lemma_mod_pos_bound(f + 1, p);
    let q = f / p;
    let r = f % p;
    assert(f == q * p + r) by (nonlinear_arith)
        requires
            f == p * q + r,
    ;
    if r + 1 < p {
        vstd::arithmetic::div_mod::lemma_fundamental_div_mod_converse(f + 1, p, q, r + 1);
    } else {
        assert(f + 1 == (q + 1) * p + 0) by (nonlinear_arith)
            requires
                f == q * p + r,
                r + 1 == p,
        ;
        vstd::arithmetic::div_mod::lemma_fundamental_div_mod_converse(f + 1, p, q + 1, 0);
    }
}

proof fn lemma_div_le(f: int, p: int)
    requires
        0 <= f,
        0 < p,
    ensures
        0 <= f / p <= f,
{
    assert(0 <= f / p <= f) by (nonlinear_arith)
        requires
            0 <= f,
            0 < p,
    ;
}

fn at_least_i32(x: i32, lo: i32) -> (r: i32)
    ensures
        r == at_least(x as int, lo as int),
{
    if x < lo {
        lo
    } else {
        x
    }
}

fn rainbow_vec() -> (v: Vec<Color>)
    ensures
        v@ == rainbow(),
{
    let mut v: Vec<Color> = Vec::new();
    v.push((255, 0, 0));
    v.push((255, 0, 158));
    v.push((205, 0, 255));
    v.push((43, 0, 255));
    v.push((0, 104, 255));
    v.push((0, 255, 255));
    v.push((0, 255, 103));
    v.push((50, 255, 0));
    v.push((206, 255, 0));
    assert(v@ =~= rainbow());
    v
}

fn scale_all(g: &Vec<Color>, brightness: u8) -> (out: Vec<Color>)
    ensures
        out@ == scaled_seq(g@, brightness),
{
    let mut out: Vec<Color> = Vec::new();
    let mut i: usize = 0;
    while i < g.len()
        invariant
            i <= g@.len(),
            out@ =~= scaled_seq(g@.subrange(0, i as int), brightness),
        decreases g@.len() - i,
    {
        out.push(apply_brightness(g[i], brightness));
        i = i + 1;
    }
    assert(g@.subrange(0, g@.len() as int) =~= g@);
    out
}

impl Animation {
    /// A fresh animation. Without colors it uses red; the cycle and wave
    /// modes precompute their gradient (through the rainbow when fewer than
    /// two colors are given), scaled by `brightness`.
    pub fn new(mode: Mode, colors: Vec<Color>, brightness: u8, speed: u8, zone: Zone) -> (a: Self)
        requires
            new_args_ok(mode, colors@, speed),
        ensures
            a@ == initial_state(mode, colors@, brightness, speed, zone),
            animation_wf(a@),
    {
        let ghost effective = effective_colors(colors@);
        let effective_colors = if colors.len() == 0 {
            let mut v: Vec<Color> = Vec::new();
            v.push((255, 0, 0));
            assert(v@ =~= seq![(255u8, 0u8, 0u8)]);
            v
        } else {
            colors
        };
        let gradient = match mode {
            Mode::Cycle | Mode::Wave => {
                let steps = speed_to_gradient_steps(speed);
                let g = if effective_colors.len() < 2 {
                    let rb = rainbow_vec();
                    proof {
                        lemma_mul_steps(rb@.len() as int, steps as int);
                    }
                    build_gradient(rb.as_slice(), steps)
                } else {
                    proof {
                        lemma_mul_steps(effective_colors@.len() as int, steps as int);
                    }
                    build_gradient(effective_colors.as_slice(), steps)
                };
                scale_all(&g, brightness)
            },
            _ => Vec::new(),
        };
        let a = Animation {
            mode,
            colors: effective_colors,
            brightness,
            speed,
            zone,
            frame_num: 0,
            gradient,
            color_idx: 0,
        };
        assert(a@.gradient =~= mode_gradient(mode, effective, brightness, speed));
        a
    }

    /// Whether [`Animation::new`] accepts these arguments: the cycle and wave
    /// modes need a speed of at most 111.
    pub fn can_build(mode: Mode, colors: &Vec<Color>, speed: u8) -> (ok: bool)
        ensures
            ok == new_args_ok(mode, colors@, speed),
    {
        match mode {
            Mode::Cycle | Mode::Wave => {
                let n: usize = if colors.len() == 0 {
                    1
                } else if colors.len() < 2 {
                    9
                } else {
                    colors.len()
                };
                (speed as u32) * 116 / 100 <= 128 && n <= usize::MAX / 128
            },
            _ => true,
        }
    }

    /// Whether [`Animation::next_frame`] can run: blink needs a speed of at
    /// most 101, and the frame counter must not run past the end of its range.
    pub fn can_step(&self) -> (ok: bool)
        ensures
            ok == step_ok(self@),
    {
        match self.mode {
            Mode::Blink => self.speed <= 101 && self.frame_num < usize::MAX,
            Mode::Cycle | Mode::Lightning | Mode::Pulse => self.frame_num < usize::MAX,
            Mode::Wave => self.frame_num < usize::MAX && self.frame_num <= usize::MAX
                - self.gradient.len() / 2,
            _ => true,
        }
    }

    /// Generate the next animation frame.
    pub fn next_frame(&mut self) -> (f: Frame)
        requires
            animation_wf(old(self)@),
            step_ok(old(self)@),
        ensures
            animation_wf(final(self)@),
            final(self)@ == advance(old(self)@),
            f.upper@ == frame_of(old(self)@).0,
            f.lower@ == frame_of(old(self)@).1,
    {
        let raw = match self.mode {
            Mode::Solid => self.solid(),
            Mode::Blink => self.blink(),
            Mode::Cycle => self.cycle(),
            Mode::Wave => self.wave(),
            Mode::Lightning => self.lightning(),
            Mode::Pulse => self.pulse(),
            Mode::AudioReactive => self.solid(),
        };
        self.apply_zone_mask(raw)
    }

    /// The audio-reactive (VU meter) frame for `lit_count` lit LEDs, counted
    /// from the start of the lower ring.
    pub fn audio_reactive_frame_lit(&self, lit_count: usize) -> (f: Frame)
        requires
            animation_wf(self@),
        ensures
            f.upper@ == masked(self@.zone, vu_frame(self@, lit_count as int)).0,
            f.lower@ == masked(self@.zone, vu_frame(self@, lit_count as int)).1,
    {
        let base_color = apply_brightness(self.colors[0], self.brightness);
        let mut lower: Vec<Color> = Vec::new();
        let mut i: usize = 0;
        while i < LOWER_COUNT
            invariant
                i <= LOWER_COUNT,
                lower@ =~= Seq::new(
                    i as nat,
                    |k: int|
                        if k < lit_count {
                            base_color
                        } else {
                            BLACK
                        },
                ),
            decreases LOWER_COUNT - i,
        {
            let lit_lower = if lit_count < LOWER_COUNT {
                lit_count
            } else {
                LOWER_COUNT
            };
            if i < lit_lower {
                lower.push(base_color);
            } else {
                lower.push(BLACK);
            }
            i = i + 1;
        }
        let mut upper: Vec<Color> = Vec::new();
        let mut j: usize = 0;
        while j < UPPER_COUNT
            invariant
                j <= UPPER_COUNT,
                upper@ =~= Seq::new(
                    j as nat,
                    |k: int|
                        if LOWER_COUNT + k < lit_count {
                            base_color
                        } else {
                            BLACK
                        },
                ),
            decreases UPPER_COUNT - j,
        {
            let global_i = LOWER_COUNT + j;
            if global_i < lit_count {
                upper.push(base_color);
            } else {
                upper.push(BLACK);
            }
            j = j + 1;
        }
        assert(upper@ =~= vu_frame(self@, lit_count as int).0);
        assert(lower@ =~= vu_frame(self@, lit_count as int).1);
        self.apply_zone_mask(Frame { upper, lower })
    }

    fn solid(&self) -> (f: Frame)
        requires
            animation_wf(self@),
            self@.mode == Mode::Solid || self@.mode == Mode::AudioReactive,
        ensures
            f.upper@ == raw_frame(self@).0,
            f.lower@ == raw_frame(self@).1,
    {
        let c = apply_brightness(self.colors[0], self.brightness);
        Frame::uniform(c)
    }

    fn blink(&mut self) -> (f: Frame)
        requires
            animation_wf(old(self)@),
            step_ok(old(self)@),
            old(self)@.mode == Mode::Blink,
        ensures
            animation_wf(final(self)@),
            final(self)@ == advance(old(self)@),
            f.upper@ == raw_frame(old(self)@).0,
            f.lower@ == raw_frame(old(self)@).1,
    {
        let x = (101 - self.speed as usize) * 4 / 10;
        let on_frames: usize = if x < 1 {
            1
        } else {
            x
        };
        let y = on_frames * 4 / 10;
        let off_frames: usize = if y < 1 {
            1
        } else {
            y
        };
        let total = on_frames + off_frames;
        let pos = self.frame_num % total;
        let frame = if pos < on_frames {
            let c = apply_brightness(
                self.colors[self.color_idx % self.colors.len()],
                self.brightness,
            );
            Frame::uniform(c)
        } else {
            Frame::uniform(BLACK)
        };
        proof {
            lemma_tick_div(self.frame_num as int, total as int);
            lemma_div_le(self.frame_num as int, total as int);
        }
        self.frame_num = self.frame_num + 1;
        if self.frame_num % total == 0 {
            self.color_idx = self.color_idx + 1;
        }
        frame
    }

    fn cycle(&mut self) -> (f: Frame)
        requires
            animation_wf(old(self)@),
            step_ok(old(self)@),
            old(self)@.mode == Mode::Cycle,
        ensures
            animation_wf(final(self)@),
            final(self)@ == advance(old(self)@),
            f.upper@ == raw_frame(old(self)@).0,
            f.lower@ == raw_frame(old(self)@).1,
    {
        let total = self.gradient.len();
        if total == 0 {
            return Frame::uniform(BLACK);
        }
        let c = self.gradient[self.frame_num % total];
        self.frame_num = self.frame_num + 1;
        Frame::uniform(c)
    }

    fn wave(&mut self) -> (f: Frame)
        requires
            animation_wf(old(self)@),
            step_ok(old(self)@),
            old(self)@.mode == Mode::Wave,
        ensures
            animation_wf(final(self)@),
            final(self)@ == advance(old(self)@),
            f.upper@ == raw_frame(old(self)@).0,
            f.lower@ == raw_frame(old(self)@).1,
    {
        let total = self.gradient.len();
        if total == 0 {
            return Frame::uniform(BLACK);
        }
        let offset = total / 2;
        let upper_c = self.gradient[self.frame_num % total];
        let lower_c = self.gradient[(self.frame_num + offset) % total];
        self.frame_num = self.frame_num + 1;
        Frame { upper: vec_of(upper_c, UPPER_COUNT), lower: vec_of(lower_c, LOWER_COUNT) }
    }

    fn lightning(&mut self) -> (f: Frame)
        requires
            animation_wf(old(self)@),
            step_ok(old(self)@),
            old(self)@.mode == Mode::Lightning,
        ensures
            animation_wf(final(self)@),
            final(self)@ == advance(old(self)@),
            f.upper@ == raw_frame(old(self)@).0,
            f.lower@ == raw_frame(old(self)@).1,
    {
        let sp = self.speed as i32;
        let fade_in = at_least_i32(10 - sp * 7 / 100, 2);
        let hold = at_least_i32(3 - sp * 2 / 100, 1);
        let fade_out = at_least_i32(40 - sp * 35 / 100, 5);
        let pause = at_least_i32(20 - sp * 17 / 100, 3);
        let lower_delay = at_least_i32(fade_in / 2, 1);
        let total_cycle = (fade_in + hold + fade_out + lower_delay + pause) as usize;
        let pos = (self.frame_num % total_cycle) as i32;
        let c = apply_brightness(self.colors[self.color_idx % self.colors.len()], self.brightness);
        let upper_t = flash_intensity(pos, fade_in, hold, fade_out);
        let lower_t = flash_intensity(pos - lower_delay, fade_in, hold, fade_out);
        let upper_c = lerp(BLACK, c, upper_t);
        let lower_c = lerp(BLACK, c, lower_t);
        let frame = Frame { upper: vec_of(upper_c, UPPER_COUNT), lower: vec_of(lower_c, LOWER_COUNT) };
        proof {
            lemma_tick_div(self.frame_num as int, total_cycle as int);
            lemma_div_le(self.frame_num as int, total_cycle as int);
        }
        self.frame_num = self.frame_num + 1;
        if self.frame_num % total_cycle == 0 {
            self.color_idx = self.color_idx + 1;
        }
        frame
    }

    fn pulse(&mut self) -> (f: Frame)
        requires
            animation_wf(old(self)@),
            step_ok(old(self)@),
            old(self)@.mode == Mode::Pulse,
        ensures
            animation_wf(final(self)@),
            final(self)@ == advance(old(self)@),
            f.upper@ == raw_frame(old(self)@).0,
            f.lower@ == raw_frame(old(self)@).1,
    {
        let sp = self.speed as i32;
        let fade_in = at_least_i32(10 - sp * 7 / 100, 2);
        let hold = at_least_i32(3 - sp * 2 / 100, 1);
        let fade_out = at_least_i32(40 - sp * 35 / 100, 5);
        let pause = at_least_i32(20 - sp * 17 / 100, 3);
        let total_cycle = (fade_in + hold + fade_out + pause) as usize;
        let pos = (self.frame_num % total_cycle) as i32;
        let c = apply_brightness(self.colors[self.color_idx % self.colors.len()], self.brightness);
        let t = flash_intensity(pos, fade_in, hold, fade_out);
        let frame = Frame::uniform(lerp(BLACK, c, t));
        proof {
            lemma_tick_div(self.frame_num as int, total_cycle as int);
            lemma_div_le(self.frame_num as int, total_cycle as int);
        }
        self.frame_num = self.frame_num + 1;
        if self.frame_num % total_cycle == 0 {
            self.color_idx = self.color_idx + 1;
        }
        frame
    }

    fn apply_zone_mask(&self, frame: Frame) -> (f: Frame)
        ensures
            f.upper@ == masked(self@.zone, (frame.upper@, frame.lower@)).0,
            f.lower@ == masked(self@.zone, (frame.upper@, frame.lower@)).1,
    {
        match self.zone {
            Zone::Both => frame,
            Zone::Upper => Frame { upper: frame.upper, lower: vec_of(BLACK, LOWER_COUNT) },
            Zone::Lower => Frame { upper: vec_of(BLACK, UPPER_COUNT), lower: frame.lower },
        }
    }
}

proof fn lemma_mul_steps(n: int, steps: int)
    requires
        0 <= n,
        0 <= steps <= 128,
    ensures
        n * steps <= n * 128,
{
    assert(n * steps <= n * 128) by (nonlinear_arith)
        requires
            0 <= n,
            0 <= steps <= 128,
    ;
}

/// Every frame has one color per LED of each ring, so it can be sent.
pub proof fn lemma_frames_complete(v: AnimationView, lit: int)
    ensures
        frame_of(v).0.len() == UPPER_COUNT,
        frame_of(v).1.len() == LOWER_COUNT,
        masked(v.zone, vu_frame(v, lit)).0.len() == UPPER_COUNT,
        masked(v.zone, vu_frame(v, lit)).1.len() == LOWER_COUNT,
{
}

/// Zone masking: with zone `Upper` every lower LED is off, with zone `Lower`
/// every upper LED is off, and with `Both` the mode's frame is shown as is.
pub proof fn lemma_zone_mask(v: AnimationView, fr: FrameView)
    ensures
        v.zone == Zone::Upper ==> forall|i: int|
            0 <= i < LOWER_COUNT ==> #[trigger] masked(v.zone, fr).1[i] == BLACK,
        v.zone == Zone::Lower ==> forall|i: int|
            0 <= i < UPPER_COUNT ==> #[trigger] masked(v.zone, fr).0[i] == BLACK,
        v.zone == Zone::Upper ==> masked(v.zone, fr).0 == fr.0,
        v.zone == Zone::Lower ==> masked(v.zone, fr).1 == fr.1,
        v.zone == Zone::Both ==> masked(v.zone, fr) == fr,
{
}

/// The solid and audio-reactive modes keep their state: every frame is the
/// first color at the set brightness.
pub proof fn lemma_steady_modes(v: AnimationView)
    requires
        v.mode == Mode::Solid || v.mode == Mode::AudioReactive,
    ensures
        advance(v) == v,
        raw_frame(v) == uniform_view(scaled(v.colors[0], v.brightness)),
{
}

/// The cycle and wave modes repeat after one pass over their gradient.
pub proof fn lemma_gradient_modes_periodic(v: AnimationView)
    requires
        v.mode == Mode::Cycle || v.mode == Mode::Wave,
        v.gradient.len() > 0,
    ensures
        frame_of(AnimationView { frame_num: v.frame_num + v.gradient.len(), ..v }) == frame_of(v),
{
    let t = v.gradient.len() as int;
    let f = v.frame_num as int;
    vstd::arithmetic::div_mod::lemma_mod_add_multiples_vanish(f, t);
    vstd::arithmetic::div_mod::lemma_mod_add_multiples_vanish(f + t / 2, t);
    assert(f + t + t / 2 == (f + t / 2) + t);
}

/// Blink: each period shows the current color for `blink_on_frames` frames
/// (at least one), then black for `blink_off_frames` frames (at least one);
/// the color moves on to the next one after every period.
pub proof fn lemma_blink_schedule(v: AnimationView)
    requires
        animation_wf(v),
        v.mode == Mode::Blink,
        v.speed <= 101,
    ensures
        blink_on_frames(v.speed) >= 1,
        blink_off_frames(v.speed) >= 1,
        v.color_idx == v.frame_num as int / blink_period(v.speed),
        (v.frame_num as int % blink_period(v.speed) < blink_on_frames(v.speed)) ==> raw_frame(v)
            == uniform_view(scaled(v.colors[(v.color_idx % v.colors.len()) as int], v.brightness)),
        (v.frame_num as int % blink_period(v.speed) >= blink_on_frames(v.speed)) ==> raw_frame(v)
            == uniform_view(BLACK),
{
}

/// The cycle and wave modes with fewer than two colors run through the
/// rainbow palette.
pub proof fn lemma_rainbow_fallback(
    mode: Mode,
    colors: Seq<Color>,
    brightness: u8,
    speed: u8,
    zone: Zone,
)
    requires
        mode == Mode::Cycle || mode == Mode::Wave,
        colors.len() < 2,
    ensures
        initial_state(mode, colors, brightness, speed, zone).gradient == scaled_seq(
            gradient(rainbow(), gradient_steps(speed) as nat),
            brightness,
        ),
{
}

/// The VU meter fills the lower ring first: with at most one ring's worth
/// of lit LEDs the upper ring is dark, and with every LED lit both rings
/// show the first color.
pub proof fn lemma_vu_fills_lower_first(v: AnimationView, lit: int)
    ensures
        lit <= LOWER_COUNT ==> forall|i: int|
            0 <= i < UPPER_COUNT ==> #[trigger] vu_frame(v, lit).0[i] == BLACK,
        lit >= UPPER_COUNT + LOWER_COUNT ==> forall|i: int|
            0 <= i < UPPER_COUNT ==> #[trigger] vu_frame(v, lit).0[i] == scaled(
                v.colors[0],
                v.brightness,
            ),
        lit >= LOWER_COUNT ==> forall|i: int|
            0 <= i < LOWER_COUNT ==> #[trigger] vu_frame(v, lit).1[i] == scaled(
                v.colors[0],
                v.brightness,
            ),
{
}

/// The zone only turns rings off: two states that differ in nothing but
/// their zone light the rings they share with the same colors, a single-ring
/// zone keeps the other ring dark, and a step moves every one of them alike
/// (the zone changes neither the timing nor the colors).
pub proof fn lemma_zone_only_masks(v: AnimationView, z: Zone)
    ensures
        frame_of(AnimationView { zone: Zone::Upper, ..v }).0 == frame_of(
            AnimationView { zone: Zone::Both, ..v },
        ).0,
        frame_of(AnimationView { zone: Zone::Upper, ..v }).1 == repeat(BLACK, LOWER_COUNT as nat),
        frame_of(AnimationView { zone: Zone::Lower, ..v }).1 == frame_of(
            AnimationView { zone: Zone::Both, ..v },
        ).1,
        frame_of(AnimationView { zone: Zone::Lower, ..v }).0 == repeat(BLACK, UPPER_COUNT as nat),
        advance(AnimationView { zone: z, ..v }) == (AnimationView { zone: z, ..advance(v) }),
{
}

proof fn lemma_dim_black(t: FloatVal)
    ensures
        dimmed(BLACK, t) == BLACK,
{
    assert(crate::float::from_int(0) == fzero());
}

/// At brightness 0 every mode shows a dark frame.
pub proof fn lemma_brightness_zero_dark(v: AnimationView)
    requires
        animation_wf(v),
        v.brightness == 0,
    ensures
        forall|i: int| 0 <= i < frame_of(v).0.len() ==> #[trigger] frame_of(v).0[i] == BLACK,
        forall|i: int| 0 <= i < frame_of(v).1.len() ==> #[trigger] frame_of(v).1[i] == BLACK,
{
    lemma_brightness_laws(v.colors[0]);
    lemma_brightness_laws(v.colors[(v.color_idx % v.colors.len()) as int]);
    let pos_p = (v.frame_num as int) % pulse_period(v.speed);
    let pos_l = (v.frame_num as int) % lightning_period(v.speed);
    lemma_dim_black(flash_at(v.speed, pos_p));
    lemma_dim_black(flash_at(v.speed, pos_l));
    lemma_dim_black(flash_at(v.speed, pos_l - lower_delay_frames(v.speed)));
    let t = v.gradient.len() as int;
    if (v.mode == Mode::Cycle || v.mode == Mode::Wave) && t > 0 {
        let f = v.frame_num as int;
        let g = gradient(gradient_palette(v.colors), gradient_steps(v.speed) as nat);
        lemma_brightness_laws(g[f % t]);
        lemma_brightness_laws(g[(f + t / 2) % t]);
    }
}

/// In the blink, lightning and pulse modes, period `k` shows color
/// `k mod n` of the `n` palette colors, at the set brightness: blink during
/// its on-phase (dark in the rest), pulse and the upper lightning ring at full
/// intensity during the hold, the lower lightning ring during its delayed
/// hold. Every pulse and lightning period starts dark.
pub proof fn lemma_period_colors(v: AnimationView)
    requires
        animation_wf(v),
    ensures
        ({
            let f = v.frame_num as int;
            let n = v.colors.len() as int;
            let per = pulse_period(v.speed);
            let pos = f % per;
            let c = scaled(v.colors[(f / per) % n], v.brightness);
            v.mode == Mode::Pulse ==> {
                &&& fade_in_frames(v.speed) <= pos < fade_in_frames(v.speed) + hold_frames(v.speed)
                    ==> raw_frame(v) == uniform_view(c)
                &&& pos == 0 ==> raw_frame(v) == uniform_view(BLACK)
            }
        }),
        ({
            let f = v.frame_num as int;
            let n = v.colors.len() as int;
            let per = lightning_period(v.speed);
            let pos = f % per;
            let d = lower_delay_frames(v.speed);
            let c = scaled(v.colors[(f / per) % n], v.brightness);
            v.mode == Mode::Lightning ==> {
                &&& fade_in_frames(v.speed) <= pos < fade_in_frames(v.speed) + hold_frames(v.speed)
                    ==> raw_frame(v).0 == repeat(c, UPPER_COUNT as nat)
                &&& fade_in_frames(v.speed) <= pos - d < fade_in_frames(v.speed) + hold_frames(
                    v.speed,
                ) ==> raw_frame(v).1 == repeat(c, LOWER_COUNT as nat)
                &&& pos == 0 ==> raw_frame(v) == uniform_view(BLACK)
            }
        }),
        ({
            let f = v.frame_num as int;
            let n = v.colors.len() as int;
            let per = blink_period(v.speed);
            let c = scaled(v.colors[(f / per) % n], v.brightness);
            v.mode == Mode::Blink && v.speed <= 101 ==> {
                &&& f % per < blink_on_frames(v.speed) ==> raw_frame(v) == uniform_view(c)
                &&& f % per >= blink_on_frames(v.speed) ==> raw_frame(v) == uniform_view(BLACK)
            }
        }),
{
    let f = v.frame_num as int;
    let sp = v.speed;
    let c = current_color(v);
    lemma_flash_envelope(0, fade_in_frames(sp), hold_frames(sp), fade_out_frames(sp));
    lemma_flash_envelope(-lower_delay_frames(sp), fade_in_frames(sp), hold_frames(sp), fade_out_frames(sp));
    lemma_lerp_end(BLACK, c, fone());
    lemma_lerp_start(BLACK, c, fzero());
    if v.mode == Mode::Pulse {
        let pos = f % pulse_period(sp);
        lemma_flash_envelope(pos, fade_in_frames(sp), hold_frames(sp), fade_out_frames(sp));
    }
    if v.mode == Mode::Lightning {
        let pos = f % lightning_period(sp);
        lemma_flash_envelope(pos, fade_in_frames(sp), hold_frames(sp), fade_out_frames(sp));
        lemma_flash_envelope(
            pos - lower_delay_frames(sp),
            fade_in_frames(sp),
            hold_frames(sp),
            fade_out_frames(sp),
        );
    }
}

/// Cycle shows on every LED the gradient entry at the frame count (modulo
/// the gradient's length); wave shows that entry on the upper ring and the
/// entry half a gradient further on the lower ring. The gradient is the
/// looping gradient through the palette (the rainbow with fewer than two
/// colors), with the speed's step count, scaled by the brightness.
pub proof fn lemma_gradient_frames(v: AnimationView)
    requires
        animation_wf(v),
        v.mode == Mode::Cycle || v.mode == Mode::Wave,
    ensures
        v.gradient == scaled_seq(
            gradient(gradient_palette(v.colors), gradient_steps(v.speed) as nat),
            v.brightness,
        ),
        ({
            let f = v.frame_num as int;
            let t = v.gradient.len() as int;
            &&& t > 0 && v.mode == Mode::Cycle ==> raw_frame(v) == uniform_view(v.gradient[f % t])
            &&& t > 0 && v.mode == Mode::Wave ==> raw_frame(v).0 == repeat(
                v.gradient[f % t],
                UPPER_COUNT as nat,
            ) && raw_frame(v).1 == repeat(v.gradient[(f + t / 2) % t], LOWER_COUNT as nat)
        }),
{
}

} // verus!
