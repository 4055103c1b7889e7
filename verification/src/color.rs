//! Color math used by the animations: brightness scaling, linear
//! interpolation, looping gradients and the flash envelope of the lightning
//! and pulse modes.
//!
//! All of it is binary32 (`f32`) arithmetic, carried out by the operations of
//! [`crate::float`]: every step rounds to the nearest `f32`, and a channel is
//! converted back by `as u8` (toward zero, saturating).

use vstd::prelude::*;
use crate::float::{
    add_f32, clamp01, clamp01_f32, div_f32, eabs, fadd, fdiv, fmul, fone, from_int, from_u64, fsub,
    fzero, gt_one, int_val, is_normal, lemma_add_between, lemma_add_ints, lemma_bitlen_is,
    lemma_bitlen_le, lemma_byte_exact, lemma_clamp01_unit, lemma_div_self, lemma_fdiv_normal,
    lemma_int_val_normal, lemma_int_val_shape, lemma_int_val_sig, lemma_mul_one, lemma_mul_unit,
    lemma_neg_int, lemma_one_minus_unit, lemma_pow2_zero_mul, lemma_ratio_unit, lemma_rne_err,
    lemma_round_bits_normal, lemma_round_int_err, lemma_round_int_mono, lemma_round_int_pos,
    lemma_round_int_shift, lemma_round_value, lemma_to_u8_between, lemma_to_u8_scaled, mag_ge,
    mul_f32, one_f32, operand_ok, rne, round_int, sub_f32, to_u8, to_u8_f32, unit_interval, FloatVal,
    F32, SIG_END, SIG_MIN,
};
use vstd::arithmetic::power2::{lemma2_to64, lemma_pow2_adds, lemma_pow2_pos, pow2};
use crate::protocol::{Color, Frame};

verus! {

/// The brightness factor `brightness as f32 / 100.0`.
pub open spec fn brightness_factor(brightness: u8) -> FloatVal {
    fdiv(from_int(brightness as nat), from_int(100))
}

/// One channel scaled by brightness: `(v as f32 * factor) as u8`.
pub open spec fn scale_channel(v: u8, brightness: u8) -> u8 {
    to_u8(fmul(from_int(v as nat), brightness_factor(brightness)))
}

/// A color scaled by `brightness` percent.
pub open spec fn scaled(c: Color, brightness: u8) -> Color {
    (scale_channel(c.0, brightness), scale_channel(c.1, brightness), scale_channel(c.2, brightness))
}

/// A channel as an `f32`.
fn channel_f32(v: u8) -> (r: F32)
    ensures
        r@ == from_int(v as nat),
        operand_ok(r@),
        eabs(r@) <= 127,
{
    from_u64(v as u64)
}

/// Scale a color by brightness (0-100): every channel becomes
/// `(channel as f32 * (brightness as f32 / 100.0)) as u8`.
pub fn apply_brightness(color: Color, brightness: u8) -> (out: Color)
    ensures
        out == scaled(color, brightness),
{
    let f = div_f32(channel_f32(brightness), from_u64(100));
    (scale_u8(color.0, f), scale_u8(color.1, f), scale_u8(color.2, f))
}

fn scale_u8(v: u8, f: F32) -> (out: u8)
    requires
        is_normal(f@),
        eabs(f@) <= 1000,
    ensures
        out == to_u8(fmul(from_int(v as nat), f@)),
{
    to_u8_f32(mul_f32(channel_f32(v), f))
}

/// Gradient steps per color pair for a speed: `max(128 - speed * 116 / 100, 12)`.
pub open spec fn gradient_steps(speed: u8) -> int {
    let s = 128 - speed as int * 116 / 100;
    if s < 12 {
        12
    } else {
        s
    }
}

/// The speeds for which the gradient step count is defined (0 to 111).
pub open spec fn gradient_speed_ok(speed: u8) -> bool {
    speed as int * 116 / 100 <= 128
}

/// Map speed (0-100) to gradient steps per color pair.
pub fn speed_to_gradient_steps(speed: u8) -> (steps: usize)
    requires
        gradient_speed_ok(speed),
    ensures
        steps == gradient_steps(speed),
        12 <= steps <= 128,
{
    let s: usize = 128 - (speed as usize) * 116 / 100;
    if s < 12 {
        12
    } else {
        s
    }
}

/// The interpolation positions accepted: any normal `f32` value (their
/// exponents lie far inside this bound).
pub open spec fn position_ok(t: FloatVal) -> bool {
    is_normal(t) && eabs(t) <= 0x100_0000
}

/// One channel of the interpolation from `a` to `b` at `t`:
/// `(a as f32 + (b as f32 - a as f32) * t.clamp(0.0, 1.0)) as u8`.
pub open spec fn lerp_channel(a: u8, b: u8, t: FloatVal) -> u8 {
    let fa = from_int(a as nat);
    to_u8(fadd(fa, fmul(fsub(from_int(b as nat), fa), clamp01(t))))
}

/// The color between `c1` and `c2` at position `t`.
pub open spec fn lerp_spec(c1: Color, c2: Color, t: FloatVal) -> Color {
    (lerp_channel(c1.0, c2.0, t), lerp_channel(c1.1, c2.1, t), lerp_channel(c1.2, c2.2, t))
}

fn lerp_u8(a: u8, b: u8, t: F32) -> (out: u8)
    requires
        operand_ok(t@),
        eabs(t@) <= 0x100_0000 + 23,
    ensures
        out == to_u8(fadd(from_int(a as nat), fmul(fsub(from_int(b as nat), from_int(a as nat)), t@))),
{
    let fa = channel_f32(a);
    let d = sub_f32(channel_f32(b), fa);
    let p = mul_f32(d, t);
    to_u8_f32(add_f32(fa, p))
}

/// Linear interpolation between two colors. `t` clamped to [0.0, 1.0].
pub fn lerp(c1: Color, c2: Color, t: F32) -> (out: Color)
    requires
        position_ok(t@),
    ensures
        out == lerp_spec(c1, c2, t@),
{
    let t = clamp01_f32(t);
    (lerp_u8(c1.0, c2.0, t), lerp_u8(c1.1, c2.1, t), lerp_u8(c1.2, c2.2, t))
}

/// Two rings of colors blended pairwise at `t`, as far as the shorter one
/// reaches.
pub open spec fn blend_seq(a: Seq<Color>, b: Seq<Color>, t: FloatVal) -> Seq<Color> {
    let n = if a.len() <= b.len() {
        a.len()
    } else {
        b.len()
    };
    Seq::new(n, |i: int| lerp_spec(a[i], b[i], t))
}

fn blend_ring(a: &Vec<Color>, b: &Vec<Color>, t: F32) -> (out: Vec<Color>)
    requires
        position_ok(t@),
    ensures
        out@ == blend_seq(a@, b@, t@),
{
    let n = if a.len() <= b.len() {
        a.len()
    } else {
        b.len()
    };
    let mut out: Vec<Color> = Vec::new();
    let mut i: usize = 0;
    while i < n
        invariant
            n <= a.len(),
            n <= b.len(),
            n == blend_seq(a@, b@, t@).len(),
            position_ok(t@),
            i <= n,
            out@ =~= blend_seq(a@, b@, t@).subrange(0, i as int),
        decreases n - i,
    {
        out.push(lerp(a[i], b[i], t));
        i = i + 1;
    }
    out
}

/// Blend two frames together. `t` = 0.0 returns `a`, `t` = 1.0 returns `b`.
pub fn blend_frames(a: &Frame, b: &Frame, t: F32) -> (f: Frame)
    requires
        position_ok(t@),
    ensures
        f.upper@ == blend_seq(a.upper@, b.upper@, t@),
        f.lower@ == blend_seq(a.lower@, b.lower@, t@),
{
    Frame { upper: blend_ring(&a.upper, &b.upper, t), lower: blend_ring(&a.lower, &b.lower, t) }
}

/// The position `num as f32 / den as f32`.
pub open spec fn ratio(num: nat, den: nat) -> FloatVal {
    fdiv(from_int(num), from_int(den))
}

/// Entry `k` of the looping gradient through `colors` with `steps` entries per
/// pair: pair `k / steps` runs from its color to the next one (the last color
/// runs back to the first).
pub open spec fn gradient_entry(colors: Seq<Color>, steps: nat, k: int) -> Color {
    let i = k / steps as int;
    let s = k % steps as int;
    lerp_spec(colors[i], colors[(i + 1) % colors.len() as int], ratio(s as nat, steps))
}

/// The looping gradient through `colors`, `steps` entries per pair.
pub open spec fn gradient(colors: Seq<Color>, steps: nat) -> Seq<Color> {
    Seq::new(colors.len() * steps, |k: int| gradient_entry(colors, steps, k))
}

/// Build a looping gradient through a list of colors.
pub fn build_gradient(colors: &[Color], steps_per_pair: usize) -> (g: Vec<Color>)
    requires
        colors@.len() * steps_per_pair <= usize::MAX,
    ensures
        g@ == gradient(colors@, steps_per_pair as nat),
{
    let mut g: Vec<Color> = Vec::new();
    let n = colors.len();
    let mut i: usize = 0;
    while i < n
        invariant
            n == colors@.len(),
            n * steps_per_pair <= usize::MAX,
            i <= n,
            g@.len() == i * steps_per_pair,
            forall|k: int|
                0 <= k < i * steps_per_pair ==> #[trigger] g@[k] == gradient_entry(
                    colors@,
                    steps_per_pair as nat,
                    k,
                ),
        decreases n - i,
    {
        let c1 = colors[i];
        let c2 = colors[(i + 1) % n];
        let mut step: usize = 0;
        proof {
            assert(i * steps_per_pair + steps_per_pair <= n * steps_per_pair) by (nonlinear_arith)
                requires
                    i < n,
            ;
        }
        while step < steps_per_pair
            invariant
                n == colors@.len(),
                i < n,
                c1 == colors@[i as int],
                c2 == colors@[(i as int + 1) % n as int],
                i * steps_per_pair + steps_per_pair <= usize::MAX,
                step <= steps_per_pair,
                g@.len() == i * steps_per_pair + step,
                forall|k: int|
                    0 <= k < i * steps_per_pair + step ==> #[trigger] g@[k] == gradient_entry(
                        colors@,
                        steps_per_pair as nat,
                        k,
                    ),
            decreases steps_per_pair - step,
        {
            let t = div_f32(from_u64(step as u64), from_u64(steps_per_pair as u64));
            let c = lerp(c1, c2, t);
            proof {
                let k = i * steps_per_pair + step;
                assert(k / steps_per_pair as int == i as int && k % steps_per_pair as int
                    == step as int) by (nonlinear_arith)
                    requires
                        k == i * steps_per_pair + step,
                        0 <= step < steps_per_pair,
                        0 <= i,
                ;
            }
            g.push(c);
            step = step + 1;
        }
        proof {
            assert((i + 1) * steps_per_pair == i * steps_per_pair + steps_per_pair) by (nonlinear_arith);
        }
        i = i + 1;
    }
    assert(g@ =~= gradient(colors@, steps_per_pair as nat));
    g
}

/// Flash intensity at frame `frame`: zero before the start, `frame / fade_in`
/// while rising, one for `hold` frames, `1 - k / fade_out` at frame `k` of the
/// fall, then zero (each quotient and difference an `f32` operation).
pub open spec fn flash_level(frame: int, fade_in: int, hold: int, fade_out: int) -> FloatVal {
    if frame < 0 {
        fzero()
    } else if frame < fade_in {
        fdiv(from_int(frame as nat), from_int(fade_in as nat))
    } else if frame - fade_in < hold {
        fone()
    } else if frame - fade_in - hold < fade_out {
        fsub(fone(), fdiv(from_int((frame - fade_in - hold) as nat), from_int(fade_out as nat)))
    } else {
        fzero()
    }
}

/// The arguments for which the envelope is computed without leaving the
/// 32-bit range.
pub open spec fn flash_args_ok(frame: i32, fade_in: i32, hold: i32) -> bool {
    &&& (frame >= 0 && frame >= fade_in) ==> i32::MIN <= frame - fade_in <= i32::MAX
    &&& (frame >= 0 && frame >= fade_in && frame - fade_in >= hold) ==> i32::MIN <= frame
        - fade_in - hold <= i32::MAX
}

/// Flash intensity (0.0-1.0) at a given frame position.
pub fn flash_intensity(frame_num: i32, fade_in: i32, hold: i32, fade_out: i32) -> (level: F32)
    requires
        flash_args_ok(frame_num, fade_in, hold),
    ensures
        level@ == flash_level(frame_num as int, fade_in as int, hold as int, fade_out as int),
        unit_interval(level@),
        position_ok(level@),
        eabs(level@) <= 1000,
{
    proof {
        lemma_flash_in_unit_range(frame_num as int, fade_in as int, hold as int, fade_out as int);
    }
    if frame_num < 0 {
        return F32 { neg: false, m: 0, e: 0 };
    }
    if frame_num < fade_in {
        return div_f32(from_u64(frame_num as u64), from_u64(fade_in as u64));
    }
    let frame_num = frame_num - fade_in;
    if frame_num < hold {
        return one_f32();
    }
    let frame_num = frame_num - hold;
    if frame_num < fade_out {
        let q = div_f32(from_u64(frame_num as u64), from_u64(fade_out as u64));
        return sub_f32(one_f32(), q);
    }
    F32 { neg: false, m: 0, e: 0 }
}

proof fn lemma_scale_channel(v: u8)
    ensures
        scale_channel(v, 100) == v,
        scale_channel(v, 0) == 0,
{
    lemma_byte_exact(100);
    lemma_byte_exact(v);
    lemma_div_self(from_int(100));
    lemma_mul_one(from_int(v as nat));
}

/// Brightness 100 keeps a color and brightness 0 turns it off.
pub proof fn lemma_brightness_laws(c: Color)
    ensures
        scaled(c, 100) == c,
        scaled(c, 0) == (0u8, 0u8, 0u8),
{
    lemma_scale_channel(c.0);
    lemma_scale_channel(c.1);
    lemma_scale_channel(c.2);
}

proof fn lemma_lerp_channel_start(a: u8, b: u8, t: FloatVal)
    requires
        is_normal(t),
        t.neg || t.m == 0,
    ensures
        lerp_channel(a, b, t) == a,
{
    lemma_byte_exact(a);
}

/// Interpolating at a position of zero or below gives the first color.
pub proof fn lemma_lerp_start(c1: Color, c2: Color, t: FloatVal)
    requires
        is_normal(t),
        t.neg || t.m == 0,
    ensures
        lerp_spec(c1, c2, t) == c1,
{
    lemma_lerp_channel_start(c1.0, c2.0, t);
    lemma_lerp_channel_start(c1.1, c2.1, t);
    lemma_lerp_channel_start(c1.2, c2.2, t);
}

proof fn lemma_lerp_channel_end(a: u8, b: u8, t: FloatVal)
    requires
        is_normal(t),
        gt_one(t) || t == fone(),
    ensures
        lerp_channel(a, b, t) == b,
{
    let d = b as int - a as int;
    lemma_neg_int(a as int);
    lemma_add_ints(b as int, -(a as int));
    lemma_int_val_normal(d);
    lemma_mul_one(int_val(d));
    lemma_add_ints(a as int, d);
    lemma_byte_exact(b);
}

/// Interpolating at a position of one or above gives the second color.
pub proof fn lemma_lerp_end(c1: Color, c2: Color, t: FloatVal)
    requires
        is_normal(t),
        gt_one(t) || t == fone(),
    ensures
        lerp_spec(c1, c2, t) == c2,
{
    lemma_lerp_channel_end(c1.0, c2.0, t);
    lemma_lerp_channel_end(c1.1, c2.1, t);
    lemma_lerp_channel_end(c1.2, c2.2, t);
}

proof fn lemma_lerp_channel_between(a: u8, b: u8, t: FloatVal)
    requires
        is_normal(t),
    ensures
        a <= b ==> a <= lerp_channel(a, b, t) <= b,
        b <= a ==> b <= lerp_channel(a, b, t) <= a,
{
    let c = clamp01(t);
    lemma_clamp01_unit(t);
    let dz = b as int - a as int;
    let n: nat = if dz < 0 {
        (-dz) as nat
    } else {
        dz as nat
    };
    lemma_neg_int(a as int);
    lemma_add_ints(b as int, -(a as int));
    lemma_int_val_sig(dz);
    lemma_mul_unit(int_val(dz), c, n);
    let p = fmul(int_val(dz), c);
    lemma_int_val_sig(a as int);
    if p.m == 0 {
        lemma_pow2_zero_mul(0);
        lemma_add_between(a, p, 0);
        lemma_to_u8_between(fadd(int_val(a as int), p), a as nat, a as nat);
    } else if p.neg {
        lemma_add_between(a, p, n);
        lemma_to_u8_between(fadd(int_val(a as int), p), b as nat, a as nat);
    } else {
        lemma_add_between(a, p, n);
        lemma_to_u8_between(fadd(int_val(a as int), p), a as nat, b as nat);
    }
}

/// Every channel of an interpolated color lies between the two endpoints'
/// channels.
pub proof fn lemma_lerp_between(c1: Color, c2: Color, t: FloatVal)
    requires
        is_normal(t),
    ensures
        c1.0 <= c2.0 ==> c1.0 <= lerp_spec(c1, c2, t).0 <= c2.0,
        c2.0 <= c1.0 ==> c2.0 <= lerp_spec(c1, c2, t).0 <= c1.0,
        c1.1 <= c2.1 ==> c1.1 <= lerp_spec(c1, c2, t).1 <= c2.1,
        c2.1 <= c1.1 ==> c2.1 <= lerp_spec(c1, c2, t).1 <= c1.1,
        c1.2 <= c2.2 ==> c1.2 <= lerp_spec(c1, c2, t).2 <= c2.2,
        c2.2 <= c1.2 ==> c2.2 <= lerp_spec(c1, c2, t).2 <= c1.2,
{
    lemma_lerp_channel_between(c1.0, c2.0, t);
    lemma_lerp_channel_between(c1.1, c2.1, t);
    lemma_lerp_channel_between(c1.2, c2.2, t);
}

/// The brightness factor of a brightness up to 100 lies in `[0, 1]`.
proof fn lemma_brightness_factor_unit(b: u8)
    requires
        b <= 100,
    ensures
        unit_interval(brightness_factor(b)),
{
    lemma_ratio_unit(b as nat, 100);
}

/// No brightness up to 100 makes a channel brighter.
pub proof fn lemma_brightness_dims(c: Color, b: u8)
    requires
        b <= 100,
    ensures
        scaled(c, b).0 <= c.0,
        scaled(c, b).1 <= c.1,
        scaled(c, b).2 <= c.2,
{
    lemma_brightness_factor_unit(b);
    lemma_scale_dims(c.0, b);
    lemma_scale_dims(c.1, b);
    lemma_scale_dims(c.2, b);
}

proof fn lemma_scale_dims(v: u8, b: u8)
    requires
        unit_interval(brightness_factor(b)),
    ensures
        scale_channel(v, b) <= v,
{
    let f = brightness_factor(b);
    lemma_int_val_sig(v as int);
    lemma_mul_unit(int_val(v as int), f, v as nat);
    let r = fmul(int_val(v as int), f);
    lemma_pow2_zero_mul(0);
    assert(mag_ge(r, 0)) by {
        if r.e < 0 {
            assert(r.m >= 0 * pow2((-r.e) as nat)) by (nonlinear_arith);
        }
    }
    lemma_to_u8_between(r, 0, v as nat);
}

/// The brightness factor as an integer at scale `2^30`.
pub open spec fn factor_at30(b: u8) -> nat {
    let f = brightness_factor(b);
    f.m * pow2((f.e + 30) as nat)
}

/// The brightness factor of a brightness up to 100 is `b / 100` within
/// `6400 / 2^30`, and its exponent is at least `-30`.
proof fn lemma_factor_at30(b: u8)
    requires
        b <= 100,
    ensures
        brightness_factor(b).e + 30 >= 0,
        b > 0 ==> brightness_factor(b).m != 0,
        100 * factor_at30(b) <= b * pow2(30) + 6400,
        b * pow2(30) <= 100 * factor_at30(b) + 6400,
{
    lemma2_to64();
    lemma_brightness_factor_unit(b);
    let f = brightness_factor(b);
    if b == 0 {
        assert(0 * pow2(30) == 0) by (nonlinear_arith);
    } else {
        lemma_bitlen_is(100, 7);
        lemma_bitlen_le(b as nat, 7);
        lemma_int_val_shape(b as int);
        lemma_int_val_shape(100);
        let x = from_int(b as nat);
        let y = from_int(100);
        let kb = (-x.e) as nat;
        assert(y.m == 100 * pow2(17) && y.e == -17);
        assert(kb >= 17);
        let s: nat = if x.m >= y.m {
            23
        } else {
            24
        };
        let k = (kb + s - 17) as nat;
        let q = rne(x.m * pow2(s), y.m);
        lemma_rne_err(x.m * pow2(s), y.m);
        lemma_pow2_adds(kb, s);
        lemma_pow2_adds(k, 17);
        assert(x.m * pow2(s) == b * pow2(k) * pow2(17)) by (nonlinear_arith)
            requires
                x.m == b * pow2(kb),
                pow2(kb + s) == pow2(kb) * pow2(s),
                pow2(k + 17) == pow2(k) * pow2(17),
                kb + s == k + 17,
        ;
        lemma_pow2_pos(17);
        assert(100 * q <= b * pow2(k) + 50 && b * pow2(k) <= 100 * q + 50) by (nonlinear_arith)
            requires
                2 * (q * (100 * pow2(17))) <= 2 * (b * pow2(k) * pow2(17)) + 100 * pow2(17),
                2 * (b * pow2(k) * pow2(17)) <= 2 * (q * (100 * pow2(17))) + 100 * pow2(17),
                pow2(17) > 0,
        ;
        let j = (30 - k) as nat;
        lemma_pow2_adds(k, j);
        assert(k + j == 30);
        assert(factor_at30(b) == q * pow2(j)) by {
            if q == SIG_END {
                lemma_pow2_adds(1, j);
                assert(f.m == SIG_MIN && f.e + 30 == 1 + j);
                assert(SIG_MIN * pow2(1 + j) == q * pow2(j)) by (nonlinear_arith)
                    requires
                        pow2(1 + j) == 2 * pow2(j),
                        q == 2 * SIG_MIN,
                ;
            }
        }
        if j < 7 {
            vstd::arithmetic::power2::lemma_pow2_strictly_increases(j, 7);
        }
        assert(100 * (q * pow2(j)) <= b * pow2(30) + 6400) by (nonlinear_arith)
            requires
                100 * q <= b * pow2(k) + 50,
                pow2(30) == pow2(k) * pow2(j),
                pow2(j) <= 128,
        ;
        assert(b * pow2(30) <= 100 * (q * pow2(j)) + 6400) by (nonlinear_arith)
            requires
                b * pow2(k) <= 100 * q + 50,
                pow2(30) == pow2(k) * pow2(j),
                pow2(j) <= 128,
        ;
    }
}

/// A channel scaled by a brightness up to 100 is the rounded product of
/// the channel and the factor at scale `2^30`, rounded down to an integer.
proof fn lemma_scale_value(c: u8, b: u8)
    requires
        b <= 100,
    ensures
        scale_channel(c, b) == round_int((c as nat) * factor_at30(b)) / pow2(30),
{
    lemma2_to64();
    lemma_factor_at30(b);
    lemma_brightness_factor_unit(b);
    let f = brightness_factor(b);
    let g = factor_at30(b);
    let cn = c as nat;
    if c == 0 || b == 0 {
        if b == 0 {
            assert(cn * g == 0) by (nonlinear_arith)
                requires
                    g == f.m * pow2((f.e + 30) as nat),
                    f.m == 0,
            ;
        }
        assert(round_int(0) == 0);
    } else {
        lemma_bitlen_le(c as nat, 8);
        lemma_int_val_shape(c as int);
        let xc = from_int(c as nat);
        let kc = (-xc.e) as nat;
        let big_x = xc.m * f.m;
        let e = xc.e + f.e;
        assert(big_x > 0) by (nonlinear_arith)
            requires
                big_x == xc.m * f.m,
                xc.m > 0,
                f.m > 0,
        ;
        lemma_round_value(false, big_x, e);
        lemma_round_bits_normal(false, big_x, e);
        let r = fmul(xc, f);
        assert(r == crate::float::round_bits(false, big_x, e));
        let cf = cn * f.m;
        assert(big_x == cf * pow2(kc)) by (nonlinear_arith)
            requires
                big_x == xc.m * f.m,
                xc.m == cn * pow2(kc),
                cf == cn * f.m,
        ;
        lemma_round_int_shift(cf, kc);
        let fj = (f.e + 30) as nat;
        lemma_pow2_pos(fj);
        assert(cn * g == cf * pow2(fj)) by (nonlinear_arith)
            requires
                g == f.m * pow2(fj),
                cf == cn * f.m,
        ;
        lemma_round_int_shift(cf, fj);
        let big_y = round_int(cn * g);
        let sc = (-e + 23) as nat;
        assert(f.e <= -23);
        let extra = (sc - 30) as nat;
        lemma_pow2_adds(kc, 23);
        lemma_pow2_adds(fj, extra);
        assert(kc + 23 == fj + extra);
        let y = round_int(cf) * pow2(kc + 23);
        assert(y == big_y * pow2(extra)) by (nonlinear_arith)
            requires
                y == round_int(cf) * pow2(kc + 23),
                big_y == round_int(cf) * pow2(fj),
                pow2(kc + 23) == pow2(fj) * pow2(extra),
        ;
        assert(r.m * pow2((r.e + sc) as nat) == y) by (nonlinear_arith)
            requires
                r.m * pow2((r.e - e + 23) as nat) == round_int(big_x) * pow2(23),
                round_int(big_x) == round_int(cf) * pow2(kc),
                y == round_int(cf) * pow2(kc + 23),
                pow2(kc + 23) == pow2(kc) * pow2(23),
                r.e + sc == r.e - e + 23,
        ;
        lemma_round_int_err(cn * g);
        assert(g <= 1073741888) by (nonlinear_arith)
            requires
                100 * g <= b * pow2(30) + 6400,
                b <= 100,
                pow2(30) == 1073741824,
        ;
        assert(cn * g <= 273804181440) by (nonlinear_arith)
            requires
                g <= 1073741888,
                cn <= 255,
        ;
        assert(pow2(24) * big_y <= 273804181440 * 16777217) by (nonlinear_arith)
            requires
                pow2(24) * big_y <= (cn * g) * (pow2(24) + 1),
                cn * g <= 273804181440,
                pow2(24) == 16777216,
        ;
        assert(big_y < 256 * pow2(30));
        lemma_pow2_adds(extra, 30);
        assert(extra + 30 == sc);
        lemma_pow2_pos(extra);
        assert(y < 256 * pow2(sc)) by (nonlinear_arith)
            requires
                y == big_y * pow2(extra),
                big_y < 256 * pow2(30),
                pow2(sc) == pow2(extra) * pow2(30),
                pow2(extra) > 0,
        ;
        assert(cn * g > 0) by (nonlinear_arith)
            requires
                cn > 0,
                g == f.m * pow2(fj),
                f.m > 0,
                pow2(fj) > 0,
        ;
        lemma_round_int_pos(big_x);
        if r.m == 0 {
            assert(r.m * pow2((r.e - e + 23) as nat) == 0) by (nonlinear_arith)
                requires
                    r.m == 0,
            ;
            assert(round_int(big_x) * pow2(23) > 0) by (nonlinear_arith)
                requires
                    round_int(big_x) > 0,
                    pow2(23) > 0,
            ;
        }
        lemma_to_u8_scaled(r, sc, y);
        vstd::arithmetic::div_mod::lemma_div_multiples_vanish_quotient(
            pow2(extra) as int,
            big_y as int,
            pow2(30) as int,
        );
        assert(big_y * pow2(extra) == pow2(extra) * big_y) by (nonlinear_arith);
    }
}

proof fn lemma_channel_brightness(c: u8, b1: u8, b2: u8)
    requires
        b1 <= b2 <= 100,
    ensures
        scale_channel(c, b1) <= (c as int * b1 as int) / 100 <= scale_channel(c, b1) + 1,
        scale_channel(c, b1) <= scale_channel(c, b2),
{
    lemma2_to64();
    lemma_scale_value(c, b1);
    lemma_scale_value(c, b2);
    lemma_factor_at30(b1);
    lemma_factor_at30(b2);
    let cn = c as nat;
    let g = factor_at30(b1);
    let a = cn * g;
    let y = round_int(a);
    let t = c as int * b1 as int;
    let n = t / 100;
    let p24: int = 16777216;
    let p30: nat = 1073741824;
    let p54: int = 18014398509481984;
    lemma_round_int_err(a);
    assert(pow2(24) == p24 && pow2(30) == p30);
    assert(0 <= t <= 25500 && 0 <= n && 100 * n <= t < 100 * (n + 1)) by (nonlinear_arith)
        requires
            t == c as int * b1 as int,
            n == t / 100,
            0 <= c <= 255,
            0 <= b1 <= 100,
    ;
    // Upper bound: y < (n + 1) * 2^30.
    assert(100 * a <= t * p30 + 6400 * cn) by (nonlinear_arith)
        requires
            a == cn * g,
            100 * g <= b1 * p30 + 6400,
            t == cn * b1,
    ;
    assert(100 * (p24 * y) <= (t * p30 + 6400 * cn) * (p24 + 1)) by (nonlinear_arith)
        requires
            p24 * y <= a * (p24 + 1),
            100 * a <= t * p30 + 6400 * cn,
            p24 > 0,
    ;
    assert((t * p30 + 6400 * cn) * (p24 + 1) < (t + 1) * p54) by (nonlinear_arith)
        requires
            0 <= t <= 25500,
            cn <= 255,
            p24 == 16777216,
            p30 == 1073741824,
            p54 == 18014398509481984,
    ;
    assert(y < (n + 1) * p30) by (nonlinear_arith)
        requires
            100 * (p24 * y) <= (t * p30 + 6400 * cn) * (p24 + 1),
            (t * p30 + 6400 * cn) * (p24 + 1) < (t + 1) * p54,
            t + 1 <= 100 * (n + 1),
            p54 == p24 * p30,
            p24 > 0,
            p30 > 0,
    ;
    assert(y / p30 <= n) by (nonlinear_arith)
        requires
            0 <= y < (n + 1) * p30,
            p30 > 0,
    ;
    // Lower bound: y >= (n - 1) * 2^30.
    if n >= 1 {
        assert(t * p30 - 6400 * cn <= 100 * a) by (nonlinear_arith)
            requires
                a == cn * g,
                b1 * p30 <= 100 * g + 6400,
                t == cn * b1,
        ;
        assert((t * p30 - 6400 * cn) * (p24 - 1) <= 100 * (p24 * y)) by (nonlinear_arith)
            requires
                a * (p24 - 1) <= p24 * y,
                t * p30 - 6400 * cn <= 100 * a,
                t * p30 - 6400 * cn >= 0,
                p24 > 1,
        ;
        assert((t - 100) * p54 < (t * p30 - 6400 * cn) * (p24 - 1)) by (nonlinear_arith)
            requires
                100 <= t <= 25500,
                cn <= 255,
                p24 == 16777216,
                p30 == 1073741824,
                p54 == 18014398509481984,
        ;
        assert(y >= (n - 1) * p30) by (nonlinear_arith)
            requires
                (t * p30 - 6400 * cn) * (p24 - 1) <= 100 * (p24 * y),
                (t - 100) * p54 < (t * p30 - 6400 * cn) * (p24 - 1),
                100 * (n - 1) <= t - 100,
                p54 == p24 * p30,
                p24 > 0,
                p30 > 0,
        ;
        assert(n - 1 <= y / p30) by (nonlinear_arith)
            requires
                y >= (n - 1) * p30,
                n >= 1,
                p30 > 0,
        ;
    }
    // Monotone in the brightness.
    let g2 = factor_at30(b2);
    if b1 < b2 {
        assert(g <= g2) by (nonlinear_arith)
            requires
                100 * g <= b1 * p30 + 6400,
                b2 * p30 <= 100 * g2 + 6400,
                b1 < b2,
                p30 == 1073741824,
        ;
    }
    assert(cn * g <= cn * g2) by (nonlinear_arith)
        requires
            g <= g2,
    ;
    lemma_round_int_mono(cn * g, cn * g2);
    assert(y / p30 <= round_int(cn * g2) / p30) by (nonlinear_arith)
        requires
            y <= round_int(cn * g2),
            p30 > 0,
    ;
}

/// Scaling by a brightness up to 100 gives each channel the exact quotient
/// `channel * brightness / 100` rounded down, or one less; and a higher
/// brightness never gives a darker channel.
pub proof fn lemma_brightness_floor_and_monotone(c: Color, b1: u8, b2: u8)
    requires
        b1 <= b2 <= 100,
    ensures
        scaled(c, b1).0 <= (c.0 as int * b1 as int) / 100 <= scaled(c, b1).0 + 1,
        scaled(c, b1).1 <= (c.1 as int * b1 as int) / 100 <= scaled(c, b1).1 + 1,
        scaled(c, b1).2 <= (c.2 as int * b1 as int) / 100 <= scaled(c, b1).2 + 1,
        scaled(c, b1).0 <= scaled(c, b2).0,
        scaled(c, b1).1 <= scaled(c, b2).1,
        scaled(c, b1).2 <= scaled(c, b2).2,
{
    lemma_channel_brightness(c.0, b1, b2);
    lemma_channel_brightness(c.1, b1, b2);
    lemma_channel_brightness(c.2, b1, b2);
}

/// A gradient has `steps` entries per color, and the entry that starts the
/// segment of color `i` is that color itself.
pub proof fn lemma_gradient_starts(colors: Seq<Color>, steps: nat, i: int)
    requires
        0 < steps,
        0 <= i < colors.len(),
    ensures
        gradient(colors, steps).len() == colors.len() * steps,
        0 <= i * steps < colors.len() * steps,
        gradient(colors, steps)[i * steps] == colors[i],
{
    let k = i * steps;
    assert(k / steps as int == i && k % steps as int == 0 && 0 <= k < colors.len() * steps)
        by (nonlinear_arith)
        requires
            k == i * steps,
            0 < steps,
            0 <= i < colors.len(),
    ;
    lemma_lerp_start(colors[i], colors[(i + 1) % colors.len() as int], ratio(0, steps));
}

/// Every gradient entry lies, channel by channel, between the two colors of
/// its segment: color `k / steps` and the next one (the first after the last).
pub proof fn lemma_gradient_between(colors: Seq<Color>, steps: nat, k: int)
    requires
        0 < steps,
        0 <= k < colors.len() * steps,
    ensures
        ({
            let i = k / steps as int;
            let c1 = colors[i];
            let c2 = colors[(i + 1) % colors.len() as int];
            let g = gradient(colors, steps)[k];
            &&& 0 <= i < colors.len()
            &&& c1.0 <= c2.0 ==> c1.0 <= g.0 <= c2.0
            &&& c2.0 <= c1.0 ==> c2.0 <= g.0 <= c1.0
            &&& c1.1 <= c2.1 ==> c1.1 <= g.1 <= c2.1
            &&& c2.1 <= c1.1 ==> c2.1 <= g.1 <= c1.1
            &&& c1.2 <= c2.2 ==> c1.2 <= g.2 <= c2.2
            &&& c2.2 <= c1.2 ==> c2.2 <= g.2 <= c1.2
        }),
{
    let i = k / steps as int;
    let st = k % steps as int;
    assert(0 <= i < colors.len() && 0 <= st < steps) by (nonlinear_arith)
        requires
            i == k / steps as int,
            st == k % steps as int,
            0 < steps,
            0 <= k < colors.len() * steps,
    ;
    lemma_round_bits_normal(false, st as nat, 0);
    lemma_round_bits_normal(false, steps, 0);
    lemma_fdiv_normal(from_int(st as nat), from_int(steps));
    lemma_lerp_between(colors[i], colors[(i + 1) % colors.len() as int], ratio(st as nat, steps));
}

/// The flash is dark before it starts, at its first frame and after it
/// ends, and at full intensity during the hold.
pub proof fn lemma_flash_envelope(frame: int, fade_in: int, hold: int, fade_out: int)
    requires
        0 < fade_in,
        0 < hold,
        0 < fade_out,
    ensures
        frame <= 0 ==> flash_level(frame, fade_in, hold, fade_out) == fzero(),
        fade_in <= frame < fade_in + hold ==> flash_level(frame, fade_in, hold, fade_out) == fone(),
        frame >= fade_in + hold + fade_out ==> flash_level(frame, fade_in, hold, fade_out) == fzero(),
{
}

/// The flash intensity lies in `[0.0, 1.0]`.
pub proof fn lemma_flash_in_unit_range(frame: int, fade_in: int, hold: int, fade_out: int)
    ensures
        unit_interval(flash_level(frame, fade_in, hold, fade_out)),
{
    if 0 <= frame < fade_in {
        lemma_ratio_unit(frame as nat, fade_in as nat);
    } else if frame >= fade_in && frame - fade_in >= hold && frame - fade_in - hold < fade_out {
        let k = frame - fade_in - hold;
        lemma_ratio_unit(k as nat, fade_out as nat);
        lemma_one_minus_unit(fdiv(from_int(k as nat), from_int(fade_out as nat)));
    }
}

} // verus!
