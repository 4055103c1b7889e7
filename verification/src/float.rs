//! IEEE 754 binary32 (`f32`) arithmetic with round-to-nearest, ties to even,
//! for the values the color math works with: zero and normal numbers.
//!
//! A value is zero or `±m · 2^e` with a 24-bit significand
//! `2^23 <= m < 2^24`. Every operation computes its exact result and rounds it
//! once to 24 significant bits, as `f32` arithmetic does.

use vstd::prelude::*;
use vstd::arithmetic::power2::{pow2, lemma_pow2_adds, lemma_pow2_pos, lemma_pow2_unfold, lemma_pow2_strictly_increases, lemma2_to64};

verus! {

/// Smallest 24-bit significand, `2^23`.
pub const SIG_MIN: u32 = 0x80_0000;
/// One more than the largest 24-bit significand, `2^24`.
pub const SIG_END: u32 = 0x100_0000;

/// The value of a binary32 number: zero (`m == 0`) or `±m · 2^e`.
pub struct FloatVal {
    pub neg: bool,
    pub m: nat,
    pub e: int,
}

/// A binary32 number: zero (`m == 0`) or `±m · 2^e` with `2^23 <= m < 2^24`.
#[derive(Debug, Clone, Copy)]
pub struct F32 {
    pub neg: bool,
    pub m: u32,
    pub e: i64,
}

impl View for F32 {
    type V = FloatVal;

    open spec fn view(&self) -> FloatVal {
        FloatVal { neg: self.neg, m: self.m as nat, e: self.e as int }
    }
}

/// Zero.
pub open spec fn fzero() -> FloatVal {
    FloatVal { neg: false, m: 0, e: 0 }
}

/// One.
pub open spec fn fone() -> FloatVal {
    FloatVal { neg: false, m: SIG_MIN as nat, e: -23 }
}

/// A normalised value: canonical zero, or a 24-bit significand.
pub open spec fn is_normal(x: FloatVal) -> bool {
    if x.m == 0 {
        x.e == 0 && !x.neg
    } else {
        SIG_MIN <= x.m < SIG_END
    }
}

/// Number of binary digits of `n`.
pub open spec fn bitlen(n: nat) -> nat
    decreases n,
{
    if n == 0 {
        0
    } else {
        1 + bitlen(n / 2)
    }
}

/// `n / d` rounded to the nearest integer, ties to the even one.
pub open spec fn rne(n: nat, d: nat) -> nat {
    let q = n / d;
    let r = n % d;
    if 2 * r < d {
        q
    } else if 2 * r > d {
        q + 1
    } else if q % 2 == 0 {
        q
    } else {
        q + 1
    }
}

/// `±s · 2^e` rounded to 24 significant bits.
pub open spec fn round_bits(neg: bool, s: nat, e: int) -> FloatVal {
    if s == 0 {
        fzero()
    } else if bitlen(s) <= 24 {
        let k = (24 - bitlen(s)) as nat;
        FloatVal { neg, m: s * pow2(k), e: e - k }
    } else {
        let sh = (bitlen(s) - 24) as nat;
        let q = rne(s, pow2(sh));
        if q == SIG_END {
            FloatVal { neg, m: SIG_MIN as nat, e: e + sh + 1 }
        } else {
            FloatVal { neg, m: q, e: e + sh }
        }
    }
}

/// An integer converted to binary32 (`n as f32`).
pub open spec fn from_int(n: nat) -> FloatVal {
    round_bits(false, n, 0)
}

/// The negation.
pub open spec fn fneg(x: FloatVal) -> FloatVal {
    if x.m == 0 {
        x
    } else {
        FloatVal { neg: !x.neg, ..x }
    }
}

/// The rounded product `x * y`.
pub open spec fn fmul(x: FloatVal, y: FloatVal) -> FloatVal {
    if x.m == 0 || y.m == 0 {
        fzero()
    } else {
        round_bits(x.neg != y.neg, x.m * y.m, x.e + y.e)
    }
}

/// The rounded quotient `x / y` (for `y` not zero).
pub open spec fn fdiv(x: FloatVal, y: FloatVal) -> FloatVal {
    if x.m == 0 || y.m == 0 {
        fzero()
    } else {
        let s: nat = if x.m >= y.m {
            23
        } else {
            24
        };
        let q = rne(x.m * pow2(s), y.m);
        if q == SIG_END {
            FloatVal { neg: x.neg != y.neg, m: SIG_MIN as nat, e: x.e - y.e - s + 1 }
        } else {
            FloatVal { neg: x.neg != y.neg, m: q, e: x.e - y.e - s }
        }
    }
}

/// The rounded sum `x + y`. An addend more than `2^100` times smaller than
/// the other is below half its last place and leaves it unchanged.
pub open spec fn fadd(x: FloatVal, y: FloatVal) -> FloatVal {
    if x.m == 0 {
        y
    } else if y.m == 0 {
        x
    } else if x.e - y.e > 100 {
        x
    } else if y.e - x.e > 100 {
        y
    } else {
        let lo = if x.e <= y.e {
            x.e
        } else {
            y.e
        };
        let a = x.m * pow2((x.e - lo) as nat);
        let b = y.m * pow2((y.e - lo) as nat);
        if x.neg == y.neg {
            round_bits(x.neg, a + b, lo)
        } else if a >= b {
            round_bits(x.neg, (a - b) as nat, lo)
        } else {
            round_bits(y.neg, (b - a) as nat, lo)
        }
    }
}

/// The rounded difference `x - y`.
pub open spec fn fsub(x: FloatVal, y: FloatVal) -> FloatVal {
    fadd(x, fneg(y))
}

/// Whether `x > 1`.
pub open spec fn gt_one(x: FloatVal) -> bool {
    !x.neg && x.m != 0 && (x.e > -23 || (x.e == -23 && x.m > SIG_MIN))
}

/// `x.clamp(0.0, 1.0)`.
pub open spec fn clamp01(x: FloatVal) -> FloatVal {
    if x.neg && x.m != 0 {
        fzero()
    } else if gt_one(x) {
        fone()
    } else {
        x
    }
}

/// `x as u8`: rounded toward zero, saturating at 0 and 255.
pub open spec fn to_u8(x: FloatVal) -> u8 {
    if x.m == 0 || x.neg {
        0
    } else if x.e >= 0 {
        255
    } else {
        let v = x.m / pow2((-x.e) as nat);
        if v > 255 {
            255
        } else {
            v as u8
        }
    }
}

/// Size of an exponent.
pub open spec fn eabs(x: FloatVal) -> int {
    if x.e < 0 {
        -x.e
    } else {
        x.e
    }
}

/// Exponent bound of the operands the operations accept.
pub open spec fn e_ok(x: FloatVal) -> bool {
    eabs(x) <= 0x1000_0000
}

// ---------------------------------------------------------------------------
// Facts about powers of two and digit counts.
// ---------------------------------------------------------------------------

/// `2^k` for `k <= 126` fits in `u128`.
pub proof fn lemma_pow2_126(k: nat)
    requires
        k <= 126,
    ensures
        pow2(k) <= 0x4000_0000_0000_0000_0000_0000_0000_0000,
        pow2(k) > 0,
        pow2(126) == 0x4000_0000_0000_0000_0000_0000_0000_0000,
{
    lemma2_to64();
    vstd::arithmetic::power2::lemma2_to64_rest();
    lemma_pow2_adds(62, 64);
    lemma_pow2_pos(k);
    if k < 126 {
        lemma_pow2_strictly_increases(k, 126);
    }
}

/// The digit count brackets a positive number between powers of two.
pub proof fn lemma_bitlen(n: nat)
    requires
        n > 0,
    ensures
        bitlen(n) >= 1,
        pow2((bitlen(n) - 1) as nat) <= n < pow2(bitlen(n)),
    decreases n,
{
    if n == 1 {
        assert(bitlen(0) == 0);
        assert(bitlen(1) == 1);
        vstd::arithmetic::power2::lemma2_to64();
    } else {
        lemma_bitlen(n / 2);
        let l = bitlen(n / 2);
        lemma_pow2_unfold(l);
        lemma_pow2_unfold((l + 1) as nat);
        if l >= 1 {
            lemma_pow2_unfold(l);
        }
    }
}

/// A number below `2^k` has at most `k` digits.
pub proof fn lemma_bitlen_le(n: nat, k: nat)
    requires
        n < pow2(k),
    ensures
        bitlen(n) <= k,
{
    if n > 0 {
        lemma_bitlen(n);
        if bitlen(n) > k {
            if (bitlen(n) - 1) as nat > k {
                lemma_pow2_strictly_increases(k, (bitlen(n) - 1) as nat);
            }
        }
    }
}

// ---------------------------------------------------------------------------
// Executable operations.
// ---------------------------------------------------------------------------

/// `2^k` for `k <= 126`.
pub fn pow2_u128(k: u32) -> (p: u128)
    requires
        k <= 126,
    ensures
        p == pow2(k as nat),
{
    let mut p: u128 = 1;
    let mut i: u32 = 0;
    proof {
        lemma2_to64();
    }
    while i < k
        invariant
            i <= k <= 126,
            p == pow2(i as nat),
        decreases k - i,
    {
        proof {
            lemma_pow2_unfold((i + 1) as nat);
            lemma_pow2_126((i + 1) as nat);
        }
        p = p * 2;
        i = i + 1;
    }
    p
}

/// Number of binary digits of `n`.
pub fn bit_length(n: u128) -> (l: u32)
    requires
        n < 0x4000_0000_0000_0000_0000_0000_0000_0000,
    ensures
        l == bitlen(n as nat),
        l <= 126,
{
    proof {
        lemma_pow2_126(126);
        lemma_bitlen_le(n as nat, 126);
    }
    let mut cur = n;
    let mut l: u32 = 0;
    while cur > 0
        invariant
            bitlen(n as nat) == l + bitlen(cur as nat),
            bitlen(n as nat) <= 126,
        decreases cur,
    {
        assert(bitlen(cur as nat) == 1 + bitlen((cur / 2) as nat));
        cur = cur / 2;
        l = l + 1;
    }
    l
}

/// `n / d` rounded to the nearest integer, ties to even.
pub fn rne_u128(n: u128, d: u128) -> (q: u128)
    requires
        0 < d < 0x8000_0000_0000_0000_0000_0000_0000_0000,
        n < 0x8000_0000_0000_0000_0000_0000_0000_0000,
    ensures
        q == rne(n as nat, d as nat),
{
    let q = n / d;
    let r = n % d;
    if 2 * r < d {
        q
    } else if 2 * r > d {
        q + 1
    } else if q % 2 == 0 {
        q
    } else {
        q + 1
    }
}

/// The sign, significand and exponent of an operand, as accepted.
pub open spec fn operand_ok(x: FloatVal) -> bool {
    is_normal(x) && e_ok(x)
}

proof fn lemma_quotient_in_binade(s: nat, d: nat, lo: nat)
    requires
        d > 0,
        lo * d <= s < 2 * lo * d,
    ensures
        lo <= s / d < 2 * lo,
{
    assert(lo <= s / d < 2 * lo) by (nonlinear_arith)
        requires
            d > 0,
            lo * d <= s < 2 * lo * d,
    ;
}

/// `±s · 2^e` rounded to 24 significant bits.
pub fn round_bits_u128(neg: bool, s: u128, e: i64) -> (r: F32)
    requires
        s < 0x4000_0000_0000_0000_0000_0000_0000_0000,
        -0x1_0000_0000 <= e <= 0x1_0000_0000,
    ensures
        r@ == round_bits(neg, s as nat, e as int),
        is_normal(r@),
        s != 0 ==> e - 24 <= r.e <= e + 127,
{
    if s == 0 {
        return F32 { neg: false, m: 0, e: 0 };
    }
    let l = bit_length(s);
    proof {
        lemma_bitlen(s as nat);
        lemma2_to64();
    }
    if l <= 24 {
        let k = 24 - l;
        let p = pow2_u128(k);
        proof {
            lemma_pow2_adds((l - 1) as nat, k as nat);
            lemma_pow2_adds(l as nat, k as nat);
            assert((l - 1) as nat + k as nat == 23);
            assert(s * p < pow2(l as nat) * p) by (nonlinear_arith)
                requires
                    s < pow2(l as nat),
                    p > 0,
            ;
            assert(pow2((l - 1) as nat) * p <= s * p) by (nonlinear_arith)
                requires
                    pow2((l - 1) as nat) <= s,
                    p > 0,
            ;
            lemma_pow2_pos(k as nat);
        }
        let m = s * p;
        F32 { neg, m: m as u32, e: e - (k as i64) }
    } else {
        let sh = l - 24;
        let d = pow2_u128(sh);
        proof {
            lemma_pow2_pos(sh as nat);
            lemma_pow2_126(sh as nat);
            lemma_pow2_adds(23, sh as nat);
            lemma_pow2_adds(24, sh as nat);
            assert((l - 1) as nat == 23 + sh as nat);
            assert(l as nat == 24 + sh as nat);
            lemma_quotient_in_binade(s as nat, d as nat, SIG_MIN as nat);
        }
        let q = rne_u128(s, d);
        if q == SIG_END as u128 {
            F32 { neg, m: SIG_MIN, e: e + (sh as i64) + 1 }
        } else {
            F32 { neg, m: q as u32, e: e + (sh as i64) }
        }
    }
}

/// The value a binary32 bit pattern encodes: `None` for the infinities and
/// NaN; negative zero reads as zero.
pub open spec fn decode(bits: u32) -> Option<FloatVal> {
    let neg = bits >= 0x8000_0000;
    let ex = (bits / 0x80_0000) % 0x100;
    let fr = bits % 0x80_0000;
    if ex == 0xff {
        None
    } else if ex == 0 {
        Some(round_bits(neg, fr as nat, -149))
    } else {
        Some(FloatVal { neg, m: (fr + SIG_MIN) as nat, e: ex - 150 })
    }
}

impl F32 {
    /// The number a binary32 bit pattern (`f32::to_bits`) encodes, or `None`
    /// for the infinities and NaN.
    pub fn from_bits(bits: u32) -> (r: Option<F32>)
        ensures
            r is None <==> decode(bits) is None,
            r matches Some(x) ==> decode(bits) == Some(x@) && is_normal(x@) && eabs(x@) <= 200,
    {
        let neg = bits >= 0x8000_0000;
        let ex = (bits / 0x80_0000) % 0x100;
        let fr = bits % 0x80_0000;
        if ex == 0xff {
            None
        } else if ex == 0 {
            Some(round_bits_u128(neg, fr as u128, -149))
        } else {
            Some(F32 { neg, m: fr + SIG_MIN, e: ex as i64 - 150 })
        }
    }
}

/// An integer converted to binary32 (`n as f32`).
pub fn from_u64(n: u64) -> (r: F32)
    ensures
        r@ == from_int(n as nat),
        operand_ok(r@),
        -24 <= r.e <= 127,
{
    round_bits_u128(false, n as u128, 0)
}

/// The negation.
pub fn neg_f32(x: F32) -> (r: F32)
    ensures
        r@ == fneg(x@),
        r.e == x.e,
        is_normal(x@) ==> is_normal(r@),
{
    if x.m == 0 {
        x
    } else {
        F32 { neg: !x.neg, ..x }
    }
}

/// The rounded product `x * y`.
pub fn mul_f32(x: F32, y: F32) -> (r: F32)
    requires
        operand_ok(x@),
        operand_ok(y@),
    ensures
        r@ == fmul(x@, y@),
        is_normal(r@),
        eabs(r@) <= eabs(x@) + eabs(y@) + 200,
{
    if x.m == 0 || y.m == 0 {
        return F32 { neg: false, m: 0, e: 0 };
    }
    assert((x.m as u128) * (y.m as u128) < 0x1_0000_0000_0000) by (nonlinear_arith)
        requires
            x.m < 0x100_0000,
            y.m < 0x100_0000,
    ;
    round_bits_u128(x.neg != y.neg, (x.m as u128) * (y.m as u128), x.e + y.e)
}

/// The rounded quotient `x / y`.
pub fn div_f32(x: F32, y: F32) -> (r: F32)
    requires
        operand_ok(x@),
        operand_ok(y@),
    ensures
        r@ == fdiv(x@, y@),
        is_normal(r@),
        eabs(r@) <= eabs(x@) + eabs(y@) + 200,
{
    if x.m == 0 || y.m == 0 {
        return F32 { neg: false, m: 0, e: 0 };
    }
    let s: u32 = if x.m >= y.m {
        23
    } else {
        24
    };
    let p = pow2_u128(s);
    proof {
        lemma2_to64();
        let xm = x.m as nat;
        let ym = y.m as nat;
        let lo = SIG_MIN as nat;
        let pn = p as nat;
        if s == 23 {
            assert(lo * ym <= xm * pn < 2 * lo * ym) by (nonlinear_arith)
                requires
                    pn == lo,
                    ym <= xm,
                    xm < 2 * lo,
                    lo <= ym,
            ;
        } else {
            assert(lo * ym <= xm * pn < 2 * lo * ym) by (nonlinear_arith)
                requires
                    pn == 2 * lo,
                    xm < ym,
                    lo <= xm,
                    ym < 2 * lo,
            ;
        }
        lemma_quotient_in_binade(xm * pn, ym, lo);
        assert(xm * pn < 0x1_0000_0000_0000) by (nonlinear_arith)
            requires
                xm < 0x100_0000,
                pn <= 0x100_0000,
        ;
    }
    let n = (x.m as u128) * p;
    let q = rne_u128(n, y.m as u128);
    let neg = x.neg != y.neg;
    if q == SIG_END as u128 {
        F32 { neg, m: SIG_MIN, e: x.e - y.e - (s as i64) + 1 }
    } else {
        F32 { neg, m: q as u32, e: x.e - y.e - (s as i64) }
    }
}

/// The rounded sum `x + y`.
pub fn add_f32(x: F32, y: F32) -> (r: F32)
    requires
        operand_ok(x@),
        operand_ok(y@),
    ensures
        r@ == fadd(x@, y@),
        is_normal(r@),
        eabs(r@) <= eabs(x@) + eabs(y@) + 200,
{
    if x.m == 0 {
        return y;
    }
    if y.m == 0 {
        return x;
    }
    if x.e - y.e > 100 {
        return x;
    }
    if y.e - x.e > 100 {
        return y;
    }
    let lo = if x.e <= y.e {
        x.e
    } else {
        y.e
    };
    let pa = pow2_u128((x.e - lo) as u32);
    let pb = pow2_u128((y.e - lo) as u32);
    proof {
        lemma_pow2_126(100);
        if (x.e - lo) < 100 {
            lemma_pow2_strictly_increases((x.e - lo) as nat, 100);
        }
        if (y.e - lo) < 100 {
            lemma_pow2_strictly_increases((y.e - lo) as nat, 100);
        }
        lemma_pow2_adds(24, 100);
        lemma2_to64();
        assert((x.m as nat) * pa <= pow2(24) * pow2(100)) by (nonlinear_arith)
            requires
                x.m < pow2(24),
                pa <= pow2(100),
        ;
        assert((y.m as nat) * pb <= pow2(24) * pow2(100)) by (nonlinear_arith)
            requires
                y.m < pow2(24),
                pb <= pow2(100),
        ;
        lemma_pow2_strictly_increases(124, 125);
        lemma_pow2_unfold(125);
        lemma_pow2_unfold(126);
    }
    let a = (x.m as u128) * pa;
    let b = (y.m as u128) * pb;
    if x.neg == y.neg {
        round_bits_u128(x.neg, a + b, lo)
    } else if a >= b {
        round_bits_u128(x.neg, a - b, lo)
    } else {
        round_bits_u128(y.neg, b - a, lo)
    }
}

/// The rounded difference `x - y`.
pub fn sub_f32(x: F32, y: F32) -> (r: F32)
    requires
        operand_ok(x@),
        operand_ok(y@),
    ensures
        r@ == fsub(x@, y@),
        is_normal(r@),
        eabs(r@) <= eabs(x@) + eabs(y@) + 200,
{
    add_f32(x, neg_f32(y))
}

/// One.
pub fn one_f32() -> (r: F32)
    ensures
        r@ == fone(),
        operand_ok(r@),
{
    F32 { neg: false, m: SIG_MIN, e: -23 }
}

/// `x.clamp(0.0, 1.0)`.
pub fn clamp01_f32(x: F32) -> (r: F32)
    requires
        operand_ok(x@),
    ensures
        r@ == clamp01(x@),
        operand_ok(r@),
{
    if x.neg && x.m != 0 {
        F32 { neg: false, m: 0, e: 0 }
    } else if x.m != 0 && (x.e > -23 || (x.e == -23 && x.m > SIG_MIN)) {
        one_f32()
    } else {
        x
    }
}

/// `x as u8`: rounded toward zero, saturating at 0 and 255.
pub fn to_u8_f32(x: F32) -> (v: u8)
    requires
        is_normal(x@),
    ensures
        v == to_u8(x@),
{
    if x.m == 0 || x.neg {
        return 0;
    }
    if x.e >= 0 {
        return 255;
    }
    if x.e < -100 {
        proof {
            let k = (-x.e) as nat;
            lemma2_to64();
            lemma_pow2_strictly_increases(24, k);
            assert((x.m as nat) / pow2(k) == 0) by (nonlinear_arith)
                requires
                    x.m < pow2(24),
                    pow2(24) < pow2(k),
            ;
        }
        return 0;
    }
    let k = 0 - x.e;
    let p = pow2_u128(k as u32);
    proof {
        lemma_pow2_pos(k as nat);
    }
    let v = (x.m as u128) / p;
    if v > 255 {
        255
    } else {
        v as u8
    }
}

// ---------------------------------------------------------------------------
// Exact cases.
// ---------------------------------------------------------------------------

/// The digit count is the exponent of the binade a number lies in.
pub proof fn lemma_bitlen_is(n: nat, k: nat)
    requires
        k >= 1,
        pow2((k - 1) as nat) <= n < pow2(k),
    ensures
        bitlen(n) == k,
{
    lemma_pow2_pos((k - 1) as nat);
    lemma_bitlen(n);
    let l = bitlen(n);
    if l > k {
        lemma_pow2_strictly_increases(k, (l - 1) as nat);
    } else if l < k {
        lemma_pow2_strictly_increases(l, (k - 1) as nat);
    }
}

/// An integer up to 255 converted to `f32` and back by `as u8` is unchanged.
pub proof fn lemma_byte_exact(v: u8)
    ensures
        to_u8(from_int(v as nat)) == v,
        is_normal(from_int(v as nat)),
{
    if v > 0 {
        lemma2_to64();
        lemma_bitlen_le(v as nat, 8);
        lemma_bitlen(v as nat);
        let l = bitlen(v as nat);
        let k = (24 - l) as nat;
        lemma_pow2_pos(k);
        lemma_pow2_adds((l - 1) as nat, k);
        lemma_pow2_adds(l, k);
        let p = pow2(k);
        assert((v as nat * p) / p == v as nat) by (nonlinear_arith)
            requires
                p > 0,
        ;
        assert(pow2((l - 1) as nat) * p <= v as nat * p < pow2(l) * p) by (nonlinear_arith)
            requires
                pow2((l - 1) as nat) <= v,
                v < pow2(l),
                p > 0,
        ;
    }
}

/// A nonzero number divided by itself is one.
pub proof fn lemma_div_self(x: FloatVal)
    requires
        is_normal(x),
        x.m != 0,
    ensures
        fdiv(x, x) == fone(),
{
    lemma2_to64();
    let p = pow2(23);
    assert((x.m * p) / x.m == p && (x.m * p) % x.m == 0) by (nonlinear_arith)
        requires
            x.m > 0,
    ;
}

/// Multiplying by one keeps a normal number.
pub proof fn lemma_mul_one(x: FloatVal)
    requires
        is_normal(x),
    ensures
        fmul(x, fone()) == x,
{
    if x.m != 0 {
        lemma2_to64();
        lemma_pow2_adds(23, 23);
        lemma_pow2_adds(23, 24);
        let p = pow2(23);
        let s = x.m * p;
        assert(pow2(23) * p <= s < pow2(24) * p) by (nonlinear_arith)
            requires
                s == x.m * p,
                pow2(23) <= x.m < pow2(24),
                p > 0,
        ;
        lemma_bitlen_is(s, 47);
        assert(s / p == x.m && s % p == 0) by (nonlinear_arith)
            requires
                s == x.m * p,
                p > 0,
        ;
    }
}

/// The binary32 value of an integer (exact for magnitudes below `2^24`).
pub open spec fn int_val(z: int) -> FloatVal {
    if z < 0 {
        round_bits(true, (-z) as nat, 0)
    } else {
        round_bits(false, z as nat, 0)
    }
}

/// Rounding an integer of at most 24 bits scaled by `2^j` gives the integer.
proof fn lemma_round_shift(neg: bool, n: nat, j: nat)
    requires
        0 < n < pow2(24),
    ensures
        round_bits(neg, n * pow2(j), -j) == round_bits(neg, n, 0),
{
    lemma_bitlen(n);
    lemma_bitlen_le(n, 24);
    let l = bitlen(n);
    let k = (24 - l) as nat;
    let s = n * pow2(j);
    lemma2_to64();
    lemma_pow2_pos(j);
    assert(s > 0) by (nonlinear_arith)
        requires
            s == n * pow2(j),
            n > 0,
            pow2(j) > 0,
    ;
    lemma_pow2_adds((l - 1) as nat, j);
    lemma_pow2_adds(l, j);
    assert(pow2((l - 1) as nat) * pow2(j) <= s < pow2(l) * pow2(j)) by (nonlinear_arith)
        requires
            s == n * pow2(j),
            pow2((l - 1) as nat) <= n < pow2(l),
            pow2(j) > 0,
    ;
    assert((l + j - 1) as nat == (l - 1) as nat + j);
    lemma_bitlen_is(s, l + j);
    if l + j <= 24 {
        let k2 = (24 - l - j) as nat;
        lemma_pow2_adds(j, k2);
        assert(j + k2 == k);
        assert(s * pow2(k2) == n * pow2(k)) by (nonlinear_arith)
            requires
                s == n * pow2(j),
                pow2(k) == pow2(j) * pow2(k2),
        ;
    } else {
        let sh = (l + j - 24) as nat;
        assert(j - sh == k);
        lemma_pow2_adds(k, sh);
        lemma_pow2_adds(l, k);
        lemma_pow2_pos(sh);
        lemma_pow2_pos(k);
        assert(k + sh == j);
        let q = n * pow2(k);
        assert(s == q * pow2(sh)) by (nonlinear_arith)
            requires
                s == n * pow2(j),
                q == n * pow2(k),
                pow2(j) == pow2(k) * pow2(sh),
        ;
        assert(s / pow2(sh) == q && s % pow2(sh) == 0) by (nonlinear_arith)
            requires
                s == q * pow2(sh),
                pow2(sh) > 0,
        ;
        assert(q < pow2(24)) by (nonlinear_arith)
            requires
                q == n * pow2(k),
                n < pow2(l),
                pow2(24) == pow2(l) * pow2(k),
                pow2(k) > 0,
        ;
        assert(l + k == 24);
    }
}

/// The shape of the value of a nonzero integer of at most 24 bits.
pub proof fn lemma_int_val_shape(z: int)
    requires
        z != 0,
        -0x100_0000 < z < 0x100_0000,
    ensures
        is_normal(int_val(z)),
        int_val(z).m >= SIG_MIN,
        int_val(z).neg == (z < 0),
        0 <= -int_val(z).e <= 23,
        int_val(z).m == (if z < 0 {
            -z
        } else {
            z
        }) * pow2((-int_val(z).e) as nat),
{
    let n: nat = if z < 0 {
        (-z) as nat
    } else {
        z as nat
    };
    lemma2_to64();
    lemma_bitlen(n);
    lemma_bitlen_le(n, 24);
    let l = bitlen(n);
    let k = (24 - l) as nat;
    lemma_pow2_adds((l - 1) as nat, k);
    lemma_pow2_adds(l, k);
    lemma_pow2_pos(k);
    assert(pow2((l - 1) as nat) * pow2(k) <= n * pow2(k) < pow2(l) * pow2(k)) by (nonlinear_arith)
        requires
            pow2((l - 1) as nat) <= n < pow2(l),
            pow2(k) > 0,
    ;
}

/// Negating the value of an integer gives the value of its negation.
pub proof fn lemma_neg_int(z: int)
    requires
        -0x100_0000 < z < 0x100_0000,
    ensures
        fneg(int_val(z)) == int_val(-z),
{
    if z != 0 {
        lemma_int_val_shape(z);
        lemma_int_val_shape(-z);
    }
}

/// Integers of at most 24 bits add exactly.
#[verifier::spinoff_prover]
#[verifier::rlimit(60)]
pub proof fn lemma_add_ints(a: int, b: int)
    requires
        -0x100_0000 < a < 0x100_0000,
        -0x100_0000 < b < 0x100_0000,
        -0x100_0000 < a + b < 0x100_0000,
    ensures
        fadd(int_val(a), int_val(b)) == int_val(a + b),
{
    if a != 0 {
        lemma_int_val_shape(a);
    }
    if b != 0 {
        lemma_int_val_shape(b);
    }
    if a != 0 && b != 0 {
        lemma2_to64();
        let x = int_val(a);
        let y = int_val(b);
        let na: nat = if a < 0 {
            (-a) as nat
        } else {
            a as nat
        };
        let nb: nat = if b < 0 {
            (-b) as nat
        } else {
            b as nat
        };
        let lo = if x.e <= y.e {
            x.e
        } else {
            y.e
        };
        let kk = (-lo) as nat;
        let ka = (-x.e) as nat;
        let kb = (-y.e) as nat;
        lemma_pow2_adds(ka, (x.e - lo) as nat);
        lemma_pow2_adds(kb, (y.e - lo) as nat);
        assert(ka + (x.e - lo) as nat == kk);
        assert(kb + (y.e - lo) as nat == kk);
        let sa = x.m * pow2((x.e - lo) as nat);
        let sb = y.m * pow2((y.e - lo) as nat);
        assert(sa == na * pow2(kk)) by (nonlinear_arith)
            requires
                sa == x.m * pow2((x.e - lo) as nat),
                x.m == na * pow2(ka),
                pow2(kk) == pow2(ka) * pow2((x.e - lo) as nat),
        ;
        assert(sb == nb * pow2(kk)) by (nonlinear_arith)
            requires
                sb == y.m * pow2((y.e - lo) as nat),
                y.m == nb * pow2(kb),
                pow2(kk) == pow2(kb) * pow2((y.e - lo) as nat),
        ;
        lemma_pow2_pos(kk);
        if x.neg == y.neg {
            assert(sa + sb == (na + nb) * pow2(kk)) by (nonlinear_arith)
                requires
                    sa == na * pow2(kk),
                    sb == nb * pow2(kk),
            ;
            lemma_round_shift(x.neg, (na + nb) as nat, kk);
        } else if sa >= sb {
            assert(na >= nb) by (nonlinear_arith)
                requires
                    sa == na * pow2(kk),
                    sb == nb * pow2(kk),
                    sa >= sb,
                    pow2(kk) > 0,
            ;
            assert((sa - sb) as nat == ((na - nb) as nat) * pow2(kk)) by (nonlinear_arith)
                requires
                    sa == na * pow2(kk),
                    sb == nb * pow2(kk),
                    na >= nb,
            ;
            if na > nb {
                lemma_round_shift(x.neg, (na - nb) as nat, kk);
            }
        } else {
            assert(nb > na) by (nonlinear_arith)
                requires
                    sa == na * pow2(kk),
                    sb == nb * pow2(kk),
                    sa < sb,
                    pow2(kk) > 0,
            ;
            assert((sb - sa) as nat == ((nb - na) as nat) * pow2(kk)) by (nonlinear_arith)
                requires
                    sa == na * pow2(kk),
                    sb == nb * pow2(kk),
                    nb > na,
            ;
            lemma_round_shift(y.neg, (nb - na) as nat, kk);
        }
    }
}

/// The value of an integer of at most 24 bits is a normal number.
pub proof fn lemma_int_val_normal(z: int)
    requires
        -0x100_0000 < z < 0x100_0000,
    ensures
        is_normal(int_val(z)),
{
    if z != 0 {
        lemma_int_val_shape(z);
    }
}

// ---------------------------------------------------------------------------
// Rounding is monotone.
// ---------------------------------------------------------------------------

/// The magnitude of `x` is at most the integer `n`.
pub open spec fn mag_le(x: FloatVal, n: nat) -> bool {
    if x.e < 0 {
        x.m <= n * pow2((-x.e) as nat)
    } else {
        x.m * pow2(x.e as nat) <= n
    }
}

/// The magnitude of `x` is at least the integer `n`.
pub open spec fn mag_ge(x: FloatVal, n: nat) -> bool {
    if x.e < 0 {
        x.m >= n * pow2((-x.e) as nat)
    } else {
        x.m * pow2(x.e as nat) >= n
    }
}

pub proof fn lemma_rne_le(s: nat, d: nat, bound: nat)
    requires
        d > 0,
        s <= bound * d,
    ensures
        rne(s, d) <= bound,
{
    let q = s / d;
    let r = s % d;
    assert(q <= bound && (q == bound ==> r == 0)) by (nonlinear_arith)
        requires
            d > 0,
            s <= bound * d,
            q == s / d,
            r == s % d,
    ;
}

pub proof fn lemma_rne_ge(s: nat, d: nat, bound: nat)
    requires
        d > 0,
        s >= bound * d,
    ensures
        rne(s, d) >= bound,
        rne(s, d) <= s / d + 1,
{
    let q = s / d;
    assert(q >= bound) by (nonlinear_arith)
        requires
            d > 0,
            s >= bound * d,
            q == s / d,
    ;
}

/// Rounding gives a normal number.
pub proof fn lemma_round_bits_normal(neg: bool, s: nat, e: int)
    ensures
        is_normal(round_bits(neg, s, e)),
{
    if s > 0 {
        lemma2_to64();
        lemma_bitlen(s);
        let l = bitlen(s);
        if l <= 24 {
            let k = (24 - l) as nat;
            lemma_pow2_adds((l - 1) as nat, k);
            lemma_pow2_adds(l, k);
            lemma_pow2_pos(k);
            assert(pow2((l - 1) as nat) * pow2(k) <= s * pow2(k) < pow2(l) * pow2(k))
                by (nonlinear_arith)
                requires
                    pow2((l - 1) as nat) <= s < pow2(l),
                    pow2(k) > 0,
            ;
        } else {
            let sh = (l - 24) as nat;
            let d = pow2(sh);
            lemma_pow2_pos(sh);
            lemma_pow2_adds(23, sh);
            lemma_pow2_adds(24, sh);
            assert((l - 1) as nat == 23 + sh);
            lemma_quotient_in_binade(s, d, SIG_MIN as nat);
            lemma_rne_ge(s, d, SIG_MIN as nat);
        }
    }
}

/// Multiplying by `2^0` keeps a number.
pub proof fn lemma_pow2_zero_mul(x: nat)
    ensures
        x * pow2(0) == x,
{
    lemma2_to64();
    assert(x * pow2(0) == x) by (nonlinear_arith)
        requires
            pow2(0) == 1,
    ;
}

/// Rounding `s · 2^-big_e` does not go above an integer `n` of at most 24
/// bits that the exact value does not exceed.
pub proof fn lemma_round_le(neg: bool, s: nat, big_e: nat, n: nat)
    requires
        s <= n * pow2(big_e),
        n < 0x100_0000,
    ensures
        mag_le(round_bits(neg, s, -big_e), n),
{
    lemma2_to64();
    lemma_pow2_pos(big_e);
    lemma_pow2_zero_mul(n);
    if s == 0 {
        lemma_pow2_zero_mul(0);
    } else {
        lemma_bitlen(s);
        let l = bitlen(s);
        if l <= 24 {
            let k = (24 - l) as nat;
            lemma_pow2_adds(big_e, k);
            lemma_pow2_pos(k);
            assert(s * pow2(k) <= n * pow2(big_e + k)) by (nonlinear_arith)
                requires
                    s <= n * pow2(big_e),
                    pow2(big_e + k) == pow2(big_e) * pow2(k),
                    pow2(k) > 0,
            ;
            lemma_pow2_zero_mul(s * pow2(k));
        } else {
            let sh = (l - 24) as nat;
            lemma_pow2_pos(sh);
            lemma_pow2_adds(23, sh);
            assert((l - 1) as nat == 23 + sh);
            if sh > big_e {
                lemma_pow2_adds(24, big_e);
                if 24 + big_e < 23 + sh {
                    lemma_pow2_strictly_increases(24 + big_e, 23 + sh);
                }
                assert(n * pow2(big_e) < pow2(24) * pow2(big_e)) by (nonlinear_arith)
                    requires
                        n < pow2(24),
                        pow2(big_e) > 0,
                ;
                assert(false);
            }
            let r = (big_e - sh) as nat;
            lemma_pow2_adds(r, sh);
            lemma_pow2_pos(r);
            let bound = n * pow2(r);
            assert(s <= bound * pow2(sh)) by (nonlinear_arith)
                requires
                    s <= n * pow2(big_e),
                    bound == n * pow2(r),
                    pow2(big_e) == pow2(r) * pow2(sh),
            ;
            lemma_rne_le(s, pow2(sh), bound);
            let q = rne(s, pow2(sh));
            lemma_pow2_zero_mul(q);
            lemma_pow2_zero_mul(SIG_MIN as nat);
            if q == SIG_END {
                assert(r >= 1) by {
                    if r == 0 {
                        assert(bound == n);
                    }
                }
                lemma_pow2_adds(1, (r - 1) as nat);
                assert(SIG_MIN <= n * pow2((r - 1) as nat)) by (nonlinear_arith)
                    requires
                        SIG_MIN * 2 == q,
                        q <= n * pow2(r),
                        pow2(r) == 2 * pow2((r - 1) as nat),
                ;
                if r == 1 {
                    lemma_pow2_zero_mul(n);
                }
            }
        }
    }
}

/// Rounding `s · 2^-big_e` does not go below an integer `n` of at most 24
/// bits that the exact value reaches.
pub proof fn lemma_round_ge(neg: bool, s: nat, big_e: nat, n: nat)
    requires
        s >= n * pow2(big_e),
        n < 0x100_0000,
    ensures
        mag_ge(round_bits(neg, s, -big_e), n),
{
    lemma2_to64();
    lemma_pow2_pos(big_e);
    lemma_pow2_zero_mul(n);
    if s == 0 {
        assert(n == 0) by (nonlinear_arith)
            requires
                0 >= n * pow2(big_e),
                pow2(big_e) > 0,
        ;
        lemma_pow2_zero_mul(0);
    } else {
        lemma_bitlen(s);
        let l = bitlen(s);
        if l <= 24 {
            let k = (24 - l) as nat;
            lemma_pow2_adds(big_e, k);
            lemma_pow2_pos(k);
            assert(s * pow2(k) >= n * pow2(big_e + k)) by (nonlinear_arith)
                requires
                    s >= n * pow2(big_e),
                    pow2(big_e + k) == pow2(big_e) * pow2(k),
                    pow2(k) > 0,
            ;
            lemma_pow2_zero_mul(s * pow2(k));
        } else {
            let sh = (l - 24) as nat;
            lemma_pow2_pos(sh);
            lemma_pow2_adds(23, sh);
            assert((l - 1) as nat == 23 + sh);
            if sh > big_e {
                lemma_rne_ge(s, pow2(sh), SIG_MIN as nat);
                let q = rne(s, pow2(sh));
                let e2 = (sh - big_e) as nat;
                if e2 > 1 {
                    lemma_pow2_strictly_increases(1, e2);
                }
                if e2 + 1 > 1 {
                    lemma_pow2_strictly_increases(1, e2 + 1);
                }
                assert(q * pow2(e2) >= SIG_MIN * 2) by (nonlinear_arith)
                    requires
                        q >= SIG_MIN,
                        pow2(e2) >= 2,
                ;
                assert(SIG_MIN * pow2(e2 + 1) >= SIG_MIN * 2) by (nonlinear_arith)
                    requires
                        pow2(e2 + 1) >= 2,
                ;
            } else {
                let r = (big_e - sh) as nat;
                lemma_pow2_adds(r, sh);
                lemma_pow2_pos(r);
                let bound = n * pow2(r);
                assert(s >= bound * pow2(sh)) by (nonlinear_arith)
                    requires
                        s >= n * pow2(big_e),
                        bound == n * pow2(r),
                        pow2(big_e) == pow2(r) * pow2(sh),
                ;
                lemma_rne_ge(s, pow2(sh), bound);
                let q = rne(s, pow2(sh));
                lemma_pow2_zero_mul(q);
                lemma_pow2_zero_mul(SIG_MIN as nat);
                if q == SIG_END {
                    if r >= 1 {
                        lemma_pow2_adds(1, (r - 1) as nat);
                        assert(SIG_MIN >= n * pow2((r - 1) as nat)) by (nonlinear_arith)
                            requires
                                SIG_MIN * 2 == q,
                                q >= n * pow2(r),
                                pow2(r) == 2 * pow2((r - 1) as nat),
                        ;
                    }
                }
            }
        }
    }
}

/// A number in `[0, 1]`: zero, or not negative and not above one.
pub open spec fn unit_interval(c: FloatVal) -> bool {
    is_normal(c) && !(c.neg && c.m != 0) && !gt_one(c)
}

/// Clamping gives a number in `[0, 1]`.
pub proof fn lemma_clamp01_unit(t: FloatVal)
    requires
        is_normal(t),
    ensures
        unit_interval(clamp01(t)),
{
}

/// An integer magnitude bound on `x` written with its own exponent.
pub open spec fn sig_le(x: FloatVal, n: nat) -> bool {
    x.e <= 0 && x.m <= n * pow2((-x.e) as nat)
}

/// Multiplying by a number in `[0, 1]` keeps an integer bound on the
/// magnitude, and the sign of the other factor.
pub proof fn lemma_mul_unit(x: FloatVal, c: FloatVal, n: nat)
    requires
        is_normal(x),
        sig_le(x, n),
        n < 0x100_0000,
        unit_interval(c),
    ensures
        is_normal(fmul(x, c)),
        mag_le(fmul(x, c), n),
        fmul(x, c).neg == x.neg || fmul(x, c).m == 0,
{
    lemma2_to64();
    if x.m == 0 || c.m == 0 {
        lemma_pow2_zero_mul(0);
    } else {
        let big_x = (-x.e) as nat;
        let big_c = (-c.e) as nat;
        assert(big_c >= 23);
        if big_c > 24 {
            lemma_pow2_strictly_increases(24, big_c);
        }
        assert(c.m <= pow2(big_c));
        lemma_pow2_adds(big_x, big_c);
        let s = x.m * c.m;
        assert(s <= n * pow2(big_x + big_c)) by (nonlinear_arith)
            requires
                s == x.m * c.m,
                x.m <= n * pow2(big_x),
                c.m <= pow2(big_c),
                pow2(big_x + big_c) == pow2(big_x) * pow2(big_c),
        ;
        assert(x.e + c.e == -((big_x + big_c) as int));
        lemma_round_le(x.neg != c.neg, s, big_x + big_c, n);
        lemma_round_bits_normal(x.neg != c.neg, s, x.e + c.e);
    }
}

/// The value of an integer up to 255 carries its exact bound.
pub proof fn lemma_int_val_sig(z: int)
    requires
        -256 < z < 256,
    ensures
        is_normal(int_val(z)),
        sig_le(int_val(z), (if z < 0 {
            -z
        } else {
            z
        }) as nat),
        int_val(z).neg == (z < 0) || z == 0,
        int_val(z).m == 0 <==> z == 0,
        z != 0 ==> -23 <= int_val(z).e <= -16,
{
    if z != 0 {
        lemma_int_val_shape(z);
        let n: nat = if z < 0 {
            (-z) as nat
        } else {
            z as nat
        };
        lemma2_to64();
        lemma_bitlen_le(n, 8);
    }
}

/// `x` has no sign: zero, or positive.
pub open spec fn nonneg(x: FloatVal) -> bool {
    !x.neg || x.m == 0
}

/// Adding a number of magnitude at most `d` to an integer `a` (up to 255)
/// lands, after rounding, between `a` and `a + d` when the addend is not
/// negative, and between `a - d` and `a` when it is.
#[verifier::spinoff_prover]
#[verifier::rlimit(40)]
pub proof fn lemma_add_between(a: u8, p: FloatVal, d: nat)
    requires
        is_normal(p),
        mag_le(p, d),
        d <= 255,
        p.neg ==> d <= a,
    ensures
        is_normal(fadd(int_val(a as int), p)),
        nonneg(fadd(int_val(a as int), p)),
        p.neg ==> mag_le(fadd(int_val(a as int), p), a as nat),
        p.neg ==> mag_ge(fadd(int_val(a as int), p), (a - d) as nat),
        !p.neg ==> mag_le(fadd(int_val(a as int), p), (a + d) as nat),
        !p.neg ==> mag_ge(fadd(int_val(a as int), p), a as nat),
{
    lemma2_to64();
    let x = int_val(a as int);
    lemma_int_val_sig(a as int);
    lemma_pow2_zero_mul(0);
    lemma_pow2_zero_mul(a as nat);
    if p.m != 0 {
        // A nonzero addend below 256 has a negative exponent.
        if p.e >= 0 {
            lemma_pow2_pos(p.e as nat);
            assert(p.m * pow2(p.e as nat) >= p.m) by (nonlinear_arith)
                requires
                    pow2(p.e as nat) >= 1,
            ;
            assert(false);
        }
    }
    if a == 0 {
        if p.m == 0 {
        } else if p.neg {
            assert(p.m <= 0) by (nonlinear_arith)
                requires
                    p.m <= d * pow2((-p.e) as nat),
                    d == 0,
            ;
        } else {
            assert(p.m >= 0 * pow2((-p.e) as nat)) by (nonlinear_arith);
        }
    } else if p.m == 0 {
        let k = (-x.e) as nat;
        lemma_pow2_pos(k);
        assert(x.m <= (a + d) * pow2(k) && x.m >= (a - d) * pow2(k)) by (nonlinear_arith)
            requires
                x.m <= a * pow2(k),
                x.m >= a * pow2(k),
                pow2(k) > 0,
                d >= 0,
        ;
        assert(x.m >= a * pow2(k)) by (nonlinear_arith)
            requires
                x.m == a * pow2(k),
        ;
    } else if x.e - p.e > 100 {
        let k = (-x.e) as nat;
        lemma_pow2_pos(k);
        assert(x.m <= (a + d) * pow2(k)) by (nonlinear_arith)
            requires
                x.m <= a * pow2(k),
                pow2(k) > 0,
        ;
        assert(x.m >= (a - d) * pow2(k)) by (nonlinear_arith)
            requires
                x.m >= a * pow2(k),
                pow2(k) > 0,
                a - d <= a,
        ;
    } else if p.e - x.e > 100 {
        assert(false);
    } else {
        let lo = if x.e <= p.e {
            x.e
        } else {
            p.e
        };
        let big_l = (-lo) as nat;
        let ka = (-x.e) as nat;
        let kp = (-p.e) as nat;
        let ga = (x.e - lo) as nat;
        let gp = (p.e - lo) as nat;
        lemma_pow2_adds(ka, ga);
        lemma_pow2_adds(kp, gp);
        assert(ka + ga == big_l && kp + gp == big_l);
        let sa = x.m * pow2(ga);
        let sb = p.m * pow2(gp);
        assert(sa == a * pow2(big_l)) by (nonlinear_arith)
            requires
                sa == x.m * pow2(ga),
                x.m == a * pow2(ka),
                pow2(big_l) == pow2(ka) * pow2(ga),
        ;
        assert(sb <= d * pow2(big_l)) by (nonlinear_arith)
            requires
                sb == p.m * pow2(gp),
                p.m <= d * pow2(kp),
                pow2(big_l) == pow2(kp) * pow2(gp),
        ;
        if p.neg {
            assert(sa >= sb) by (nonlinear_arith)
                requires
                    sa == a * pow2(big_l),
                    sb <= d * pow2(big_l),
                    d <= a,
            ;
            assert((sa - sb) as nat >= ((a - d) as nat) * pow2(big_l)) by (nonlinear_arith)
                requires
                    sa == a * pow2(big_l),
                    sb <= d * pow2(big_l),
                    d <= a,
            ;
            lemma_round_le(false, (sa - sb) as nat, big_l, a as nat);
            lemma_round_ge(false, (sa - sb) as nat, big_l, (a - d) as nat);
            lemma_round_bits_normal(false, (sa - sb) as nat, lo);
        } else {
            assert(sa + sb <= (a + d) * pow2(big_l)) by (nonlinear_arith)
                requires
                    sa == a * pow2(big_l),
                    sb <= d * pow2(big_l),
            ;
            lemma_round_le(false, (sa + sb) as nat, big_l, (a + d) as nat);
            lemma_round_ge(false, (sa + sb) as nat, big_l, a as nat);
            lemma_round_bits_normal(false, (sa + sb) as nat, lo);
        }
    }
}

/// `as u8` of a number between two integers up to 255 lies between them.
pub proof fn lemma_to_u8_between(r: FloatVal, lo: nat, hi: nat)
    requires
        is_normal(r),
        nonneg(r),
        mag_le(r, hi),
        mag_ge(r, lo),
        hi <= 255,
    ensures
        lo <= to_u8(r) <= hi,
{
    lemma2_to64();
    if r.m == 0 {
        lemma_pow2_zero_mul(0);
    } else if r.e >= 0 {
        lemma_pow2_pos(r.e as nat);
        assert(r.m * pow2(r.e as nat) >= r.m) by (nonlinear_arith)
            requires
                pow2(r.e as nat) >= 1,
        ;
    } else {
        let k = (-r.e) as nat;
        lemma_pow2_pos(k);
        let v = r.m / pow2(k);
        assert(lo <= v <= hi) by (nonlinear_arith)
            requires
                v == r.m / pow2(k),
                r.m <= hi * pow2(k),
                r.m >= lo * pow2(k),
                pow2(k) > 0,
        ;
    }
}

/// A quotient of normal numbers is normal.
pub proof fn lemma_fdiv_normal(x: FloatVal, y: FloatVal)
    requires
        is_normal(x),
        is_normal(y),
    ensures
        is_normal(fdiv(x, y)),
{
    if x.m != 0 && y.m != 0 {
        lemma2_to64();
        let sx: nat = if x.m >= y.m {
            23
        } else {
            24
        };
        let pn = pow2(sx);
        let xm = x.m;
        let ym = y.m;
        let lo = SIG_MIN as nat;
        if sx == 23 {
            assert(lo * ym <= xm * pn < 2 * lo * ym) by (nonlinear_arith)
                requires
                    pn == lo,
                    ym <= xm,
                    xm < 2 * lo,
                    lo <= ym,
            ;
        } else {
            assert(lo * ym <= xm * pn < 2 * lo * ym) by (nonlinear_arith)
                requires
                    pn == 2 * lo,
                    xm < ym,
                    lo <= xm,
                    ym < 2 * lo,
            ;
        }
        lemma_quotient_in_binade(xm * pn, ym, lo);
        lemma_rne_ge(xm * pn, ym, lo);
    }
}

/// A number in `[0, 1]` has magnitude at most one.
pub proof fn lemma_unit_mag(c: FloatVal)
    requires
        unit_interval(c),
    ensures
        mag_le(c, 1),
        mag_le(fneg(c), 1),
{
    lemma2_to64();
    lemma_pow2_zero_mul(0);
    if c.m != 0 {
        let k = (-c.e) as nat;
        if k > 24 {
            lemma_pow2_strictly_increases(24, k);
        }
    }
}

/// A nonnegative normal number of magnitude at most one lies in `[0, 1]`.
pub proof fn lemma_mag_unit(r: FloatVal)
    requires
        is_normal(r),
        nonneg(r),
        mag_le(r, 1),
    ensures
        unit_interval(r),
{
    lemma2_to64();
    if r.m != 0 {
        if r.e >= 0 {
            lemma_pow2_pos(r.e as nat);
            assert(r.m * pow2(r.e as nat) >= r.m) by (nonlinear_arith)
                requires
                    pow2(r.e as nat) >= 1,
            ;
        } else if r.e > -23 {
            lemma_pow2_strictly_increases((-r.e) as nat, 23);
        }
    }
}

/// One minus a number in `[0, 1]` lies in `[0, 1]`.
pub proof fn lemma_one_minus_unit(q: FloatVal)
    requires
        unit_interval(q),
    ensures
        unit_interval(fsub(fone(), q)),
{
    lemma2_to64();
    lemma_bitlen_is(1, 1);
    assert(int_val(1) == fone());
    if q.m == 0 {
        assert(fsub(fone(), q) == fone());
    } else {
        lemma_unit_mag(q);
        lemma_add_between(1, fneg(q), 1);
        lemma_mag_unit(fadd(int_val(1), fneg(q)));
    }
}

// ---------------------------------------------------------------------------
// Rounding as an operation on integers.
// ---------------------------------------------------------------------------

/// `x` rounded to 24 significant bits, ties to even.
pub open spec fn round_int(x: nat) -> nat {
    if bitlen(x) <= 24 {
        x
    } else {
        let sh = (bitlen(x) - 24) as nat;
        rne(x, pow2(sh)) * pow2(sh)
    }
}

/// Rounding to the nearest is monotone in the numerator.
pub proof fn lemma_rne_mono(n1: nat, n2: nat, d: nat)
    requires
        n1 <= n2,
        d > 0,
    ensures
        rne(n1, d) <= rne(n2, d),
{
    let q1 = n1 / d;
    let q2 = n2 / d;
    let r1 = n1 % d;
    let r2 = n2 % d;
    assert(q1 <= q2 && (q1 == q2 ==> r1 <= r2)) by (nonlinear_arith)
        requires
            n1 <= n2,
            d > 0,
            q1 == n1 / d,
            q2 == n2 / d,
            r1 == n1 % d,
            r2 == n2 % d,
    ;
}

/// A number of `l > 24` digits rounds to at most `2^l` and at least `2^(l-1)`.
proof fn lemma_round_int_binade(x: nat)
    requires
        bitlen(x) > 24,
    ensures
        pow2((bitlen(x) - 1) as nat) <= round_int(x) <= pow2(bitlen(x)),
        rne(x, pow2((bitlen(x) - 24) as nat)) <= SIG_END,
        rne(x, pow2((bitlen(x) - 24) as nat)) >= SIG_MIN,
{
    lemma2_to64();
    lemma_bitlen(x);
    let l = bitlen(x);
    let sh = (l - 24) as nat;
    let d = pow2(sh);
    lemma_pow2_pos(sh);
    lemma_pow2_adds(23, sh);
    lemma_pow2_adds(24, sh);
    assert((l - 1) as nat == 23 + sh);
    lemma_quotient_in_binade(x, d, SIG_MIN as nat);
    lemma_rne_ge(x, d, SIG_MIN as nat);
    let q = rne(x, d);
    assert(SIG_MIN * d <= q * d <= SIG_END * d) by (nonlinear_arith)
        requires
            SIG_MIN <= q <= SIG_END,
            d > 0,
    ;
}

/// Rounding an integer to 24 bits is monotone.
pub proof fn lemma_round_int_mono(x1: nat, x2: nat)
    requires
        x1 <= x2,
    ensures
        round_int(x1) <= round_int(x2),
{
    lemma2_to64();
    if x1 > 0 {
        lemma_bitlen(x2);
        let l2 = bitlen(x2);
        lemma_bitlen_le(x1, l2);
        let l1 = bitlen(x1);
        if l2 > 24 {
            lemma_round_int_binade(x2);
            if l1 <= 24 {
                lemma_bitlen(x1);
                if l1 < (l2 - 1) as nat {
                    lemma_pow2_strictly_increases(l1, (l2 - 1) as nat);
                }
            } else if l1 < l2 {
                lemma_round_int_binade(x1);
                if l1 < (l2 - 1) as nat {
                    lemma_pow2_strictly_increases(l1, (l2 - 1) as nat);
                }
            } else {
                let sh = (l1 - 24) as nat;
                lemma_pow2_pos(sh);
                lemma_rne_mono(x1, x2, pow2(sh));
                assert(rne(x1, pow2(sh)) * pow2(sh) <= rne(x2, pow2(sh)) * pow2(sh))
                    by (nonlinear_arith)
                    requires
                        rne(x1, pow2(sh)) <= rne(x2, pow2(sh)),
                        pow2(sh) > 0,
                ;
            }
        }
    }
}

/// The rounded number `round_bits(neg, x, e)` is `round_int(x) · 2^e`,
/// written with the scale `2^(e - 23)`.
pub proof fn lemma_round_value(neg: bool, x: nat, e: int)
    requires
        x > 0,
    ensures
        round_bits(neg, x, e).e - e + 23 >= 0,
        round_bits(neg, x, e).m * pow2((round_bits(neg, x, e).e - e + 23) as nat) == round_int(x)
            * pow2(23),
{
    lemma2_to64();
    lemma_bitlen(x);
    let l = bitlen(x);
    if l <= 24 {
        let k = (24 - l) as nat;
        lemma_pow2_adds(k, (23 - k) as nat);
        assert(x * pow2(k) * pow2((23 - k) as nat) == x * pow2(23)) by (nonlinear_arith)
            requires
                pow2(23) == pow2(k) * pow2((23 - k) as nat),
        ;
    } else {
        let sh = (l - 24) as nat;
        let q = rne(x, pow2(sh));
        lemma_pow2_adds(sh, 23);
        assert(q * pow2(sh + 23) == q * pow2(sh) * pow2(23)) by (nonlinear_arith)
            requires
                pow2(sh + 23) == pow2(sh) * pow2(23),
        ;
        if q == SIG_END {
            lemma_pow2_adds(1, sh + 23);
            assert(SIG_MIN * pow2(sh + 1 + 23) == q * pow2(sh + 23)) by (nonlinear_arith)
                requires
                    pow2(1 + (sh + 23)) == 2 * pow2(sh + 23),
                    q == 2 * SIG_MIN,
            ;
            assert(sh + 1 + 23 == 1 + (sh + 23));
        }
    }
}

/// Of two normal nonzero numbers given at a common scale, the smaller one
/// has the smaller exponent, or the same one and the smaller significand.
pub proof fn lemma_order_from_scaled(x: FloatVal, y: FloatVal, sc: int)
    requires
        is_normal(x),
        is_normal(y),
        x.m != 0,
        y.m != 0,
        x.e + sc >= 0,
        y.e + sc >= 0,
        x.m * pow2((x.e + sc) as nat) <= y.m * pow2((y.e + sc) as nat),
    ensures
        x.e < y.e || (x.e == y.e && x.m <= y.m),
{
    lemma2_to64();
    let ex = (x.e + sc) as nat;
    let ey = (y.e + sc) as nat;
    lemma_pow2_pos(ex);
    lemma_pow2_pos(ey);
    if x.e > y.e {
        lemma_pow2_adds(1, ey);
        if ey + 1 < ex {
            lemma_pow2_strictly_increases(ey + 1, ex);
        }
        assert(x.m * pow2(ex) >= SIG_MIN * pow2(ey + 1)) by (nonlinear_arith)
            requires
                x.m >= SIG_MIN,
                pow2(ex) >= pow2(ey + 1),
        ;
        assert(y.m * pow2(ey) < SIG_MIN * pow2(ey + 1)) by (nonlinear_arith)
            requires
                y.m < 2 * SIG_MIN,
                pow2(ey + 1) == 2 * pow2(ey),
                pow2(ey) > 0,
        ;
    } else if x.e == y.e {
        assert(x.m <= y.m) by (nonlinear_arith)
            requires
                x.m * pow2(ex) <= y.m * pow2(ey),
                ex == ey,
                pow2(ex) > 0,
        ;
    }
}

/// The quotient of two nonnegative normal numbers, the first not above the
/// second, lies in `[0, 1]`.
pub proof fn lemma_div_ordered_unit(x: FloatVal, y: FloatVal)
    requires
        is_normal(x),
        is_normal(y),
        !x.neg,
        !y.neg,
        y.m != 0,
        x.m == 0 || x.e < y.e || (x.e == y.e && x.m <= y.m),
    ensures
        unit_interval(fdiv(x, y)),
{
    lemma_fdiv_normal(x, y);
    if x.m != 0 && x.e == y.e {
        lemma2_to64();
        if x.m == y.m {
            lemma_div_self(y);
        } else {
            lemma_rne_le(x.m * pow2(24), y.m, SIG_END as nat);
        }
    }
}

/// Positive integers round to positive numbers.
pub proof fn lemma_round_int_pos(x: nat)
    requires
        x > 0,
    ensures
        round_int(x) > 0,
{
    assert(bitlen(1) == 1) by {
        assert(bitlen(0) == 0);
    }
    lemma_round_int_mono(1, x);
}

/// The quotient of two integers `a <= b` (`b` not zero) lies in `[0, 1]`.
pub proof fn lemma_ratio_unit(a: nat, b: nat)
    requires
        a <= b,
        0 < b,
    ensures
        unit_interval(fdiv(from_int(a), from_int(b))),
{
    let x = from_int(a);
    let y = from_int(b);
    lemma2_to64();
    lemma_round_bits_normal(false, a, 0);
    lemma_round_bits_normal(false, b, 0);
    lemma_round_value(false, b, 0);
    lemma_round_int_pos(b);
    lemma_pow2_pos(23);
    if y.m == 0 {
        assert(round_int(b) * pow2(23) > 0) by (nonlinear_arith)
            requires
                round_int(b) > 0,
                pow2(23) > 0,
        ;
        assert(y.m * pow2((y.e - 0 + 23) as nat) == 0) by (nonlinear_arith)
            requires
                y.m == 0,
        ;
    }
    if a > 0 {
        lemma_round_value(false, a, 0);
        lemma_round_int_pos(a);
        lemma_round_int_mono(a, b);
        if x.m == 0 {
            assert(round_int(a) * pow2(23) > 0) by (nonlinear_arith)
                requires
                    round_int(a) > 0,
                    pow2(23) > 0,
            ;
            assert(x.m * pow2((x.e - 0 + 23) as nat) == 0) by (nonlinear_arith)
                requires
                    x.m == 0,
            ;
        }
        assert(round_int(a) * pow2(23) <= round_int(b) * pow2(23)) by (nonlinear_arith)
            requires
                round_int(a) <= round_int(b),
        ;
        lemma_order_from_scaled(x, y, 23);
    }
    lemma_div_ordered_unit(x, y);
}

/// Rounding to the nearest is off by at most half the divisor.
pub proof fn lemma_rne_err(n: nat, d: nat)
    requires
        d > 0,
    ensures
        2 * (rne(n, d) * d) <= 2 * n + d,
        2 * n <= 2 * (rne(n, d) * d) + d,
{
    let q = n / d;
    let r = n % d;
    assert(n == q * d + r && 0 <= r < d) by (nonlinear_arith)
        requires
            d > 0,
            q == n / d,
            r == n % d,
    ;
    assert((q + 1) * d == q * d + d) by (nonlinear_arith);
}

/// Scaling both numbers by the same factor does not change the rounded
/// quotient.
pub proof fn lemma_rne_scale(n: nat, d: nat, p: nat)
    requires
        d > 0,
        p > 0,
    ensures
        rne(n * p, d * p) == rne(n, d),
{
    let q = n / d;
    let r = n % d;
    assert(n == q * d + r && 0 <= r < d) by (nonlinear_arith)
        requires
            d > 0,
            q == n / d,
            r == n % d,
    ;
    assert(n * p == q * (d * p) + r * p && 0 <= r * p < d * p) by (nonlinear_arith)
        requires
            n == q * d + r,
            0 <= r < d,
            p > 0,
    ;
    vstd::arithmetic::div_mod::lemma_fundamental_div_mod_converse(
        (n * p) as int,
        (d * p) as int,
        q as int,
        (r * p) as int,
    );
    assert(2 * (r * p) < d * p <==> 2 * r < d) by (nonlinear_arith)
        requires
            p > 0,
    ;
    assert(2 * (r * p) > d * p <==> 2 * r > d) by (nonlinear_arith)
        requires
            p > 0,
    ;
}

/// Rounding commutes with scaling by a power of two.
pub proof fn lemma_round_int_shift(n: nat, j: nat)
    ensures
        round_int(n * pow2(j)) == round_int(n) * pow2(j),
{
    lemma2_to64();
    lemma_pow2_pos(j);
    if n > 0 {
        lemma_bitlen(n);
        let l = bitlen(n);
        let s = n * pow2(j);
        lemma_pow2_adds((l - 1) as nat, j);
        lemma_pow2_adds(l, j);
        assert(pow2((l - 1) as nat) * pow2(j) <= s < pow2(l) * pow2(j)) by (nonlinear_arith)
            requires
                s == n * pow2(j),
                pow2((l - 1) as nat) <= n < pow2(l),
                pow2(j) > 0,
        ;
        assert((l + j - 1) as nat == (l - 1) as nat + j);
        lemma_bitlen_is(s, l + j);
        if l + j > 24 {
            let sh = (l + j - 24) as nat;
            lemma_pow2_pos(sh);
            if l <= 24 {
                let r = (j - sh) as nat;
                lemma_pow2_adds(r, sh);
                let m = n * pow2(r);
                assert(s == m * pow2(sh)) by (nonlinear_arith)
                    requires
                        s == n * pow2(j),
                        m == n * pow2(r),
                        pow2(j) == pow2(r) * pow2(sh),
                ;
                assert(s / pow2(sh) == m && s % pow2(sh) == 0) by (nonlinear_arith)
                    requires
                        s == m * pow2(sh),
                        pow2(sh) > 0,
                ;
            } else {
                let sh0 = (l - 24) as nat;
                lemma_pow2_adds(sh0, j);
                assert(sh == sh0 + j);
                lemma_pow2_pos(sh0);
                lemma_rne_scale(n, pow2(sh0), pow2(j));
                assert(rne(n, pow2(sh0)) * pow2(sh) == rne(n, pow2(sh0)) * pow2(sh0) * pow2(j))
                    by (nonlinear_arith)
                    requires
                        pow2(sh) == pow2(sh0) * pow2(j),
                ;
            }
        }
    } else {
        assert(0 * pow2(j) == 0) by (nonlinear_arith);
    }
}

/// Rounding to 24 bits changes a number by at most a `2^-24` part of it.
pub proof fn lemma_round_int_err(x: nat)
    ensures
        pow2(24) * round_int(x) <= x * (pow2(24) + 1),
        x * (pow2(24) - 1) <= pow2(24) * round_int(x),
{
    lemma2_to64();
    if bitlen(x) > 24 {
        lemma_bitlen(x);
        let l = bitlen(x);
        let sh = (l - 24) as nat;
        let d = pow2(sh);
        lemma_pow2_pos(sh);
        lemma_pow2_adds(23, sh);
        assert((l - 1) as nat == 23 + sh);
        lemma_rne_err(x, d);
        let q = rne(x, d);
        assert(pow2(24) * (q * d) <= x * (pow2(24) + 1)) by (nonlinear_arith)
            requires
                2 * (q * d) <= 2 * x + d,
                pow2(23) * d <= x,
                pow2(24) == 2 * pow2(23),
        ;
        assert(x * (pow2(24) - 1) <= pow2(24) * (q * d)) by (nonlinear_arith)
            requires
                2 * x <= 2 * (q * d) + d,
                pow2(23) * d <= x,
                pow2(24) == 2 * pow2(23),
        ;
    } else {
        assert(pow2(24) * x <= x * (pow2(24) + 1)) by (nonlinear_arith);
        assert(x * (pow2(24) - 1) <= pow2(24) * x) by (nonlinear_arith)
            requires
                pow2(24) > 0,
        ;
    }
}

/// `as u8` of a positive normal number given at scale `2^sc` as the integer
/// `y` below `256 · 2^sc` is `y / 2^sc`.
pub proof fn lemma_to_u8_scaled(r: FloatVal, sc: nat, y: nat)
    requires
        is_normal(r),
        !r.neg,
        r.m != 0,
        r.e + sc >= 0,
        r.m * pow2((r.e + sc) as nat) == y,
        y < 256 * pow2(sc),
    ensures
        to_u8(r) == y / pow2(sc),
{
    lemma2_to64();
    let a = (r.e + sc) as nat;
    lemma_pow2_pos(a);
    lemma_pow2_pos(sc);
    if r.e >= 0 {
        lemma_pow2_adds(r.e as nat, sc);
        lemma_pow2_pos(r.e as nat);
        assert(y >= 256 * pow2(sc)) by (nonlinear_arith)
            requires
                y == r.m * pow2(a),
                pow2(a) == pow2(r.e as nat) * pow2(sc),
                pow2(r.e as nat) >= 1,
                r.m >= 256,
                pow2(sc) > 0,
        ;
    } else {
        let k = (-r.e) as nat;
        lemma_pow2_adds(a, k);
        assert(a + k == sc);
        lemma_pow2_pos(k);
        vstd::arithmetic::div_mod::lemma_div_multiples_vanish_quotient(
            pow2(a) as int,
            r.m as int,
            pow2(k) as int,
        );
        assert(r.m * pow2(a) == pow2(a) * r.m) by (nonlinear_arith);
        assert(pow2(sc) == pow2(a) * pow2(k));
        let v = r.m / pow2(k);
        assert(v < 256) by (nonlinear_arith)
            requires
                v == y / pow2(sc),
                y < 256 * pow2(sc),
                pow2(sc) > 0,
        ;
    }
}

} // verus!
