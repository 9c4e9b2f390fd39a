//! Bilinear, alpha-weighted icon sampling, step by step as binary32 arithmetic
//! computes it. Each quantity is an integer count of a fixed unit: source
//! positions and their fractions in 2^-47 pixels, pixel bytes over 255 in
//! 2^-40, tap weights in 2^-94, weighted terms and their sums in 2^-100.

use vstd::prelude::*;

use crate::binary32::{
    lemma_pow2_160, lemma_rounded_at_least, lemma_rounded_scale, round_quotient, rounded_int, rounded_quotient,
};
use vstd::arithmetic::power2::{lemma2_to64, lemma_pow2_adds, lemma_pow2_pos, lemma_pow2_unfold, pow2};

verus! {

/// `(i + 0.5) / scale - 0.5`, clamped to `0 ..= n - 1`: the source coordinate
/// sampled for target coordinate `i` along a side of `n` pixels, with `scale`
/// in units of 2^-64 and the result in units of 2^-47.
pub open spec fn sample_pos(i: int, scale: int, n: int) -> int {
    let a = rounded_quotient((2 * i + 1) * 0x4000000000000000000000000000int, scale);
    let v = if a < 0x400000000000 { 0 } else { rounded_quotient(a - 0x400000000000, 1) };
    let hi = rounded_quotient((rounded_int(n) - 1) * 0x800000000000, 1);
    if v > hi { hi } else { v }
}

/// The near (`far == false`) or far pixel of the taps around source coordinate `s`.
pub open spec fn tap_at(s: int, n: int, far: bool) -> int {
    let i0 = s / 0x800000000000;
    if !far { i0 } else if i0 + 1 < n - 1 { i0 + 1 } else { n - 1 }
}

/// The fraction of `s` past its near pixel.
pub open spec fn tap_frac(s: int) -> int {
    rounded_quotient(s - (s / 0x800000000000) * 0x800000000000, 1)
}

/// The far tap's share along one axis (the fraction), or the near tap's (one
/// less the fraction).
pub open spec fn tap_part(s: int, far: bool) -> int {
    let f = tap_frac(s);
    if far {
        f
    } else {
        rounded_quotient(if f <= 0x800000000000 { 0x800000000000 - f } else { 0 }, 1)
    }
}

/// The weight of the tap `(fx, fy)`, in units of 2^-94.
pub open spec fn tap_weight(sx: int, sy: int, fx: bool, fy: bool) -> int {
    rounded_quotient(tap_part(sx, fx) * tap_part(sy, fy), 1)
}

/// A byte over 255, in units of 2^-40.
pub open spec fn unit_byte(b: int) -> int {
    rounded_quotient(b * 0x10000000000, 255)
}

/// Channel `ch` of the tap `(fx, fy)` around `(sx, sy)`.
pub open spec fn tap_value(p: Seq<u8>, w: int, h: int, sx: int, sy: int, fx: bool, fy: bool, ch: int) -> int {
    p[(tap_at(sy, h, fy) * w + tap_at(sx, w, fx)) * 4 + ch] as int
}

/// The tap's alpha times its weight, in units of 2^-100.
pub open spec fn alpha_term(p: Seq<u8>, w: int, h: int, sx: int, sy: int, fx: bool, fy: bool) -> int {
    rounded_quotient(unit_byte(tap_value(p, w, h, sx, sy, fx, fy, 3)) * tap_weight(sx, sy, fx, fy), 0x400000000)
}

/// The tap's channel `ch` times its alpha times its weight, in units of 2^-100.
pub open spec fn color_term(p: Seq<u8>, w: int, h: int, sx: int, sy: int, fx: bool, fy: bool, ch: int) -> int {
    let tinted = rounded_quotient(
        unit_byte(tap_value(p, w, h, sx, sy, fx, fy, ch)) * unit_byte(tap_value(p, w, h, sx, sy, fx, fy, 3)),
        1,
    );
    rounded_quotient(tinted * tap_weight(sx, sy, fx, fy), 0x4000000000000000000)
}

/// Four terms added in turn to zero.
pub open spec fn summed(t00: int, t10: int, t01: int, t11: int) -> int {
    let a1 = rounded_quotient(t00, 1);
    let a2 = rounded_quotient(a1 + t10, 1);
    let a3 = rounded_quotient(a2 + t01, 1);
    rounded_quotient(a3 + t11, 1)
}

/// The summed alpha of the four taps around `(sx, sy)`.
pub open spec fn alpha_sum(p: Seq<u8>, w: int, h: int, sx: int, sy: int) -> int {
    summed(
        alpha_term(p, w, h, sx, sy, false, false),
        alpha_term(p, w, h, sx, sy, true, false),
        alpha_term(p, w, h, sx, sy, false, true),
        alpha_term(p, w, h, sx, sy, true, true),
    )
}

/// The summed alpha-weighted channel `ch` of the four taps around `(sx, sy)`.
pub open spec fn color_sum(p: Seq<u8>, w: int, h: int, sx: int, sy: int, ch: int) -> int {
    summed(
        color_term(p, w, h, sx, sy, false, false, ch),
        color_term(p, w, h, sx, sy, true, false, ch),
        color_term(p, w, h, sx, sy, false, true, ch),
        color_term(p, w, h, sx, sy, true, true, ch),
    )
}

/// `v` units of `unit` rounded to the nearest integer (halves up), at most 255.
pub open spec fn byte_of(v: int, unit: int) -> int {
    let t = (v + unit / 2) / unit;
    if t > 255 { 255 } else { t }
}

/// The color byte for summed channel `c` and summed alpha `a`: `c / a * 255`,
/// rounded; zero where there is no alpha.
pub open spec fn color_byte(c: int, a: int) -> int {
    if a > 0 {
        byte_of(
            rounded_quotient(rounded_quotient(c * 0x40000000000000000000000, a) * 255, 1),
            0x40000000000000000000000,
        )
    } else {
        0
    }
}

/// The alpha byte for summed alpha `a`: `a * 255`, rounded.
pub open spec fn alpha_byte(a: int) -> int {
    byte_of(rounded_quotient(a * 255, 1), 0x10000000000000000000000000)
}

/// Channel `ch` of the bilinear sample at source position `(sx, sy)`.
#[verifier::opaque]
pub open spec fn resampled(p: Seq<u8>, w: int, h: int, sx: int, sy: int, ch: int) -> int {
    if ch == 3 {
        alpha_byte(alpha_sum(p, w, h, sx, sy))
    } else {
        color_byte(color_sum(p, w, h, sx, sy, ch), alpha_sum(p, w, h, sx, sy))
    }
}

/// 2^e.
pub fn pow2_of(e: u32) -> (r: u128)
    requires
        e < 127,
    ensures
        r == pow2(e as nat),
{
    proof {
        lemma2_to64();
    }
    let mut r: u128 = 1;
    let mut i: u32 = 0;
    while i < e
        invariant
            i <= e < 127,
            r == pow2(i as nat),
        decreases e - i,
    {
        proof {
            lemma_pow2_unfold((i + 1) as nat);
            vstd::arithmetic::power2::lemma_pow2_strictly_increases((i + 1) as nat, 127);
            assert(pow2(127) == 0x8000_0000_0000_0000_0000_0000_0000_0000) by {
                lemma_pow2_adds(64, 63);
                vstd::arithmetic::power2::lemma2_to64_rest();
            }
        }
        r = r * 2;
        i = i + 1;
    }
    r
}

/// `a * w / 2^shift` rounded, for `a == k * 2^e`: the product is formed from
/// `k` so that it stays within 128 bits.
fn scaled_product(a: u128, k: u128, e: u32, w: u128, shift: u32) -> (r: (u128, u128, u32))
    requires
        a == k * pow2(e as nat),
        k <= 0x1000000,
        e <= shift <= 80,
        w <= 0x10000000000000000000000000,
    ensures
        r.0 == rounded_quotient(a * w, pow2(shift as nat) as int),
        r.0 * pow2(shift as nat) <= 2 * a * w + pow2(shift as nat),
        r.0 == r.1 * pow2(r.2 as nat),
        r.1 <= 0x1000000,
        r.2 > 0 ==> r.1 >= 0x800000,
{
    let q = pow2_of(shift - e);
    proof {
        lemma_pow2_pos((shift - e) as nat);
        lemma_pow2_pos(e as nat);
        lemma_pow2_adds(e as nat, (shift - e) as nat);
        assert(k * w <= 0x1000000 * 0x10000000000000000000000000) by (nonlinear_arith)
            requires k <= 0x1000000, w <= 0x10000000000000000000000000, k >= 0, w >= 0;
    }
    let r = round_quotient(k * w, q);
    proof {
        let c = pow2(e as nat) as int;
        lemma_rounded_scale((k * w) as int, q as int, c);
        assert(c * (k * w) == a * w) by (nonlinear_arith)
            requires a == k * c;
        assert(c * q == pow2(shift as nat));
        assert(r.0 * pow2(shift as nat) <= 2 * a * w + pow2(shift as nat)) by (nonlinear_arith)
            requires
                r.0 * q <= 2 * (k * w) + q,
                c * q == pow2(shift as nat),
                a == k * c,
                c > 0;
    }
    r
}

/// `summed` of four terms of at most 2^110.
fn sum4(t00: u128, t10: u128, t01: u128, t11: u128) -> (r: (u128, u128, u32))
    requires
        t00 <= 0x4000000000000000000000000000,
        t10 <= 0x4000000000000000000000000000,
        t01 <= 0x4000000000000000000000000000,
        t11 <= 0x4000000000000000000000000000,
    ensures
        r.0 == summed(t00 as int, t10 as int, t01 as int, t11 as int),
        r.0 <= 0x200000000000000000000000000000,
        r.0 == r.1 * pow2(r.2 as nat),
        r.1 <= 0x1000000,
        r.2 > 0 ==> r.1 >= 0x800000,
{
    let a1 = round_quotient(t00, 1).0;
    let a2 = round_quotient(a1 + t10, 1).0;
    let a3 = round_quotient(a2 + t01, 1).0;
    round_quotient(a3 + t11, 1)
}

/// A value `k * 2^e` of at most 2^122, with `k >= 2^23` when `e > 0`, has `e <= 99`.
proof fn lemma_exponent_bound(v: int, k: int, e: nat)
    requires
        v == k * pow2(e),
        v <= 0x4000000000000000000000000000000,
        e > 0 ==> k >= 0x800000,
    ensures
        e <= 99,
{
    if e > 99 {
        lemma2_to64();
        vstd::arithmetic::power2::lemma2_to64_rest();
        lemma_pow2_adds(64, 36);
        if e > 100 {
            vstd::arithmetic::power2::lemma_pow2_strictly_increases(100, e);
        }
        assert(v >= 0x800000 * 0x10000000000000000000000000) by (nonlinear_arith)
            requires v == k * pow2(e), k >= 0x800000, pow2(e) >= 0x10000000000000000000000000;
    }
}

/// Rounds `sc` units of 2^-90 to the nearest byte, at most 255.
fn byte_of_90(sc: u128) -> (b: u8)
    requires
        sc < 0x1000000000000000000000000000000,
    ensures
        b == byte_of(sc as int, 0x40000000000000000000000),
{
    let t = (sc + 0x20000000000000000000000) / 0x40000000000000000000000;
    if t > 255 { 255 } else { t as u8 }
}

/// The rounded `r * 255` of a ratio of at least 2^100 rounds to more than 255.
proof fn lemma_ratio_saturates(r: int)
    requires
        r >= 0x10000000000000000000000000,
    ensures
        byte_of(rounded_quotient(r * 255, 1), 0x40000000000000000000000) == 255,
{
    lemma_rounded_at_least(r * 255, 1, 0x100000000000000000000000000);
}

/// The color byte for summed channel `c` and summed alpha `a` (see `color_byte`).
fn color_byte_of(c: u128, ck: u128, cs: u32, a: u128, ak: u128, as_: u32) -> (b: u8)
    requires
        c == ck * pow2(cs as nat),
        a == ak * pow2(as_ as nat),
        ck <= 0x1000000,
        ak <= 0x1000000,
        cs > 0 ==> ck >= 0x800000,
        as_ > 0 ==> ak >= 0x800000,
        c <= 0x4000000000000000000000000000000,
        a <= 0x4000000000000000000000000000000,
    ensures
        b == color_byte(c as int, a as int),
{
    if a == 0 {
        return 0;
    }
    proof {
        lemma_exponent_bound(c as int, ck as int, cs as nat);
        lemma_exponent_bound(a as int, ak as int, as_ as nat);
        lemma_pow2_pos(cs as nat);
        lemma_pow2_pos(as_ as nat);
        lemma2_to64();
        assert(ak > 0) by (nonlinear_arith)
            requires a == ak * pow2(as_ as nat), a > 0, ak >= 0;
    }
    let ghost x_spec = (c as int) * 0x40000000000000000000000int;
    let ratio: u128;
    if cs + 90 >= as_ {
        let e = cs + 90 - as_;
        proof {
            lemma_pow2_adds(as_ as nat, e as nat);
            lemma_pow2_adds(cs as nat, 90);
            vstd::arithmetic::power2::lemma2_to64_rest();
            lemma_pow2_adds(64, 26);
            assert(pow2(90) == 0x40000000000000000000000);
            assert(x_spec == pow2(as_ as nat) * (ck * pow2(e as nat))) by (nonlinear_arith)
                requires
                    x_spec == c * 0x40000000000000000000000int,
                    c == ck * pow2(cs as nat),
                    pow2((cs + 90) as nat) == pow2(cs as nat) * pow2(90),
                    pow2((as_ + e) as nat) == pow2(as_ as nat) * pow2(e as nat),
                    as_ + e == cs + 90,
                    pow2(90) == 0x40000000000000000000000;
        }
        if e >= 103 {
            proof {
                assert(cs > 0);
                if e > 103 {
                    vstd::arithmetic::power2::lemma_pow2_strictly_increases(103, e as nat);
                }
                assert(pow2(103) == 0x80000000000000000000000000) by {
                    lemma_pow2_adds(64, 39);
                }
                assert(x_spec >= 2 * 0x10000000000000000000000000 * a) by (nonlinear_arith)
                    requires
                        x_spec == pow2(as_ as nat) * (ck * pow2(e as nat)),
                        a == ak * pow2(as_ as nat),
                        ck >= 0x800000,
                        ak <= 0x1000000,
                        pow2(e as nat) >= 0x80000000000000000000000000,
                        pow2(as_ as nat) > 0;
                lemma_rounded_at_least(x_spec, a as int, 0x10000000000000000000000000);
                lemma_ratio_saturates(rounded_quotient(x_spec, a as int));
            }
            return 255;
        }
        let p = pow2_of(e);
        proof {
            if e < 102 {
                vstd::arithmetic::power2::lemma_pow2_strictly_increases(e as nat, 102);
            }
            vstd::arithmetic::power2::lemma2_to64_rest();
            lemma_pow2_adds(64, 38);
            assert(pow2(38) == 0x4000000000);
            assert(pow2(64) == 0x10000000000000000);
            assert(pow2(102) == pow2(64) * pow2(38));
            assert(pow2(102) == 0x40000000000000000000000000);
            assert(ck * p <= 0x1000000 * 0x40000000000000000000000000) by (nonlinear_arith)
                requires ck <= 0x1000000, p <= 0x40000000000000000000000000, ck >= 0, p >= 0;
            lemma_rounded_scale((ck * p) as int, ak as int, pow2(as_ as nat) as int);
        }
        ratio = round_quotient(ck * p, ak).0;
        proof {
            assert(a == pow2(as_ as nat) * ak) by (nonlinear_arith)
                requires a == ak * pow2(as_ as nat);
            assert(ratio == rounded_quotient(x_spec, a as int));
        }
    } else {
        let ne = as_ - cs - 90;
        if ne > 60 {
            proof {
                assert(as_ > 0);
                lemma_pow2_adds(cs as nat, 90);
                lemma_pow2_adds((cs + 90) as nat, ne as nat);
                vstd::arithmetic::power2::lemma2_to64_rest();
                lemma_pow2_adds(64, 26);
                vstd::arithmetic::power2::lemma_pow2_strictly_increases(60, ne as nat);
                assert(pow2(90) == 0x40000000000000000000000);
                let base = pow2((cs + 90) as nat) as int;
                assert(x_spec == ck * base) by (nonlinear_arith)
                    requires
                        x_spec == c * 0x40000000000000000000000int,
                        c == ck * pow2(cs as nat),
                        base == pow2(cs as nat) * pow2(90),
                        pow2(90) == 0x40000000000000000000000;
                assert(a == ak * (base * pow2(ne as nat)));
                assert(2 * x_spec < a) by (nonlinear_arith)
                    requires
                        x_spec == ck * base,
                        a == ak * (base * pow2(ne as nat)),
                        ck <= 0x1000000,
                        ak >= 0x800000,
                        pow2(ne as nat) > pow2(60),
                        pow2(60) == 0x1000000000000000,
                        base > 0;
                lemma_pow2_160();
                assert(x_spec < pow2(160) * a) by (nonlinear_arith)
                    requires 2 * x_spec < a, pow2(160) >= 1, a > 0, x_spec >= 0;
                crate::binary32::lemma_rounded_at_most(x_spec, a as int);
                let rr = rounded_quotient(x_spec, a as int);
                assert(rr <= 1) by (nonlinear_arith)
                    requires rr * a <= 2 * x_spec + a, 2 * x_spec < a, a > 0;
                assert(rr * 255 < pow2(160) * 1);
                crate::binary32::lemma_rounded_at_most(rr * 255, 1);
            }
            return 0;
        }
        let m = pow2_of(ne);
        proof {
            vstd::arithmetic::power2::lemma_pow2_strictly_increases(ne as nat, 61);
            vstd::arithmetic::power2::lemma2_to64_rest();
            assert(pow2(61) == 0x2000000000000000);
            assert(ak * m <= 0x1000000 * 0x2000000000000000) by (nonlinear_arith)
                requires ak <= 0x1000000, m <= 0x2000000000000000, ak >= 0, m >= 0;
            lemma_pow2_adds(cs as nat, 90);
            lemma_pow2_adds((cs + 90) as nat, ne as nat);
            vstd::arithmetic::power2::lemma2_to64_rest();
            lemma_pow2_adds(64, 26);
            assert(pow2(90) == 0x40000000000000000000000);
            let base = pow2((cs + 90) as nat) as int;
            lemma_pow2_pos((cs + 90) as nat);
            assert(x_spec == base * ck) by (nonlinear_arith)
                requires
                    x_spec == c * 0x40000000000000000000000int,
                    c == ck * pow2(cs as nat),
                    base == pow2(cs as nat) * pow2(90),
                    pow2(90) == 0x40000000000000000000000;
            assert(a == base * (ak * m)) by (nonlinear_arith)
                requires a == ak * pow2(as_ as nat), pow2(as_ as nat) == base * m;
            assert(ak * m > 0) by (nonlinear_arith)
                requires ak > 0, m > 0;
            lemma_rounded_scale(ck as int, (ak * m) as int, base);
        }
        ratio = round_quotient(ck, ak * m).0;
        proof {
            assert(ratio == rounded_quotient(x_spec, a as int));
        }
    }
    assert(ratio == rounded_quotient(x_spec, a as int));
    if ratio >= 0x10000000000000000000000000 {
        proof {
            lemma_ratio_saturates(ratio as int);
        }
        return 255;
    }
    let sc = round_quotient(ratio * 255, 1);
    proof {
        assert(sc.0 <= 2 * (ratio * 255) + 1);
    }
    byte_of_90(sc.0)
}

/// The alpha byte for summed alpha `a` (see `alpha_byte`).
fn alpha_byte_of(a: u128) -> (b: u8)
    requires
        a <= 0x200000000000000000000000000000,
    ensures
        b == alpha_byte(a as int),
{
    let v = round_quotient(a * 255, 1).0;
    let t = (v + 0x8000000000000000000000000) / 0x10000000000000000000000000;
    if t > 255 { 255 } else { t as u8 }
}

/// A value `k * 2^e` below 2^(m + 23), with `k >= 2^23` when `e > 0`, has `e < m`.
proof fn lemma_exponent_below(v: int, k: int, e: nat, m: nat)
    requires
        v == k * pow2(e),
        v < pow2(m + 23),
        e > 0 ==> k >= 0x800000,
    ensures
        e < m || e == 0,
{
    if e >= m && e > 0 {
        lemma2_to64();
        lemma_pow2_adds(e, 23);
        if e > m {
            vstd::arithmetic::power2::lemma_pow2_strictly_increases(m + 23, e + 23);
        }
        assert(v >= 0x800000 * pow2(e)) by (nonlinear_arith)
            requires v == k * pow2(e), k >= 0x800000, pow2(e) >= 0;
    }
}

/// A byte over 255 (see `unit_byte`), at most 2^41 + 1.
fn unit_byte_of(b: u8) -> (r: (u128, u128, u32))
    ensures
        r.0 == unit_byte(b as int),
        r.0 <= 0x20000000001,
        r.0 == r.1 * pow2(r.2 as nat),
        r.1 <= 0x1000000,
        r.2 > 0 ==> r.1 >= 0x800000,
{
    let r = round_quotient((b as u128) * 0x10000000000, 255);
    proof {
        assert(r.0 * 255 <= 2 * ((b as int) * 0x10000000000) + 255);
    }
    r
}

/// The alpha and channel `ch` terms of one tap whose pixel starts at `i`.
fn tap_terms(pixels: &[u8], i: usize, ch: usize, weight: u128) -> (r: (u128, u128))
    requires
        i + 3 < pixels@.len(),
        ch < 3,
        weight <= 0x8000000000000000000000000,
    ensures
        r.0 == rounded_quotient(unit_byte(pixels@[i + 3] as int) * weight, 0x400000000),
        r.1 == rounded_quotient(
            rounded_quotient(unit_byte(pixels@[i + ch] as int) * unit_byte(pixels@[i + 3] as int), 1) * weight,
            0x4000000000000000000,
        ),
        r.0 <= 0x4000000000000000000000000000,
        r.1 <= 0x4000000000000000000000000000,
{
    proof {
        lemma2_to64();
        vstd::arithmetic::power2::lemma2_to64_rest();
    }
    let n = pixels.len();
    assert(i + 3 < n);
    let sa = unit_byte_of(pixels[i + 3]);
    let pc = unit_byte_of(pixels[i + ch]);
    proof {
        lemma_pow2_adds(18, 23);
        assert(pow2(41) == 0x20000000000);
        assert(pow2(42) == 0x40000000000);
        lemma_exponent_below(sa.0 as int, sa.1 as int, sa.2 as nat, 19);
        assert(pc.0 * sa.0 <= 0x20000000001 * 0x20000000001) by (nonlinear_arith)
            requires pc.0 <= 0x20000000001, sa.0 <= 0x20000000001;
    }
    let alpha = scaled_product(sa.0, sa.1, sa.2, weight, 34);
    let tinted = round_quotient(pc.0 * sa.0, 1);
    proof {
        assert(tinted.0 < 0x1000000000000000000000);
        assert(pow2(84) == 0x1000000000000000000000) by {
            lemma_pow2_adds(64, 20);
        }
        lemma_exponent_below(tinted.0 as int, tinted.1 as int, tinted.2 as nat, 61);
    }
    let color = scaled_product(tinted.0, tinted.1, tinted.2, weight, 74);
    proof {
        assert(pow2(34) == 0x400000000);
        assert(pow2(74) == 0x4000000000000000000) by {
            lemma_pow2_adds(64, 10);
        }
        assert(alpha.0 <= 0x4000000000000000000000000000) by (nonlinear_arith)
            requires
                alpha.0 * 0x400000000 <= 2 * sa.0 * weight + 0x400000000,
                sa.0 <= 0x20000000001,
                weight <= 0x8000000000000000000000000;
        assert(color.0 <= 0x4000000000000000000000000000) by (nonlinear_arith)
            requires
                color.0 * 0x4000000000000000000 <= 2 * tinted.0 * weight + 0x4000000000000000000,
                tinted.0 < 0x1000000000000000000000,
                weight <= 0x8000000000000000000000000;
    }
    (alpha.0, color.0)
}

/// The taps and shares along one axis at source coordinate `s`.
fn axis_taps(s: u128, n: u32) -> (r: (u64, u64, u128, u128))
    requires
        n >= 1,
        s / 0x800000000000 <= n - 1,
    ensures
        r.0 == tap_at(s as int, n as int, false),
        r.1 == tap_at(s as int, n as int, true),
        r.2 == tap_part(s as int, false),
        r.3 == tap_part(s as int, true),
        r.0 < n,
        r.1 < n,
        r.2 <= 0x1000000000001,
        r.3 <= 0x1000000000001,
{
    let i0 = s / 0x800000000000;
    let i1 = if i0 + 1 < (n as u128) - 1 { i0 + 1 } else { (n as u128) - 1 };
    let f = round_quotient(s - i0 * 0x800000000000, 1).0;
    let near = if f <= 0x800000000000 {
        round_quotient(0x800000000000 - f, 1).0
    } else {
        round_quotient(0, 1).0
    };
    (i0 as u64, i1 as u64, near, f)
}

/// Index, in a packed RGBA8 image of width `w` and height `h`, of `(x, y)`.
fn pixel_offset(x: u64, y: u64, w: u32, h: u32, len: usize) -> (i: usize)
    requires
        len == (w as int) * (h as int) * 4,
        x < w,
        y < h,
    ensures
        i == (y * w + x) * 4,
        i + 3 < len,
{
    proof {
        assert(0 <= y * w) by (nonlinear_arith)
            requires 0 <= y, 0 <= w;
        assert(y * w + x < w * h) by (nonlinear_arith)
            requires 0 <= x < w, 0 <= y < h;
    }
    ((y as usize) * (w as usize) + (x as usize)) * 4
}

/// The bilinear sample at source position `(sx, sy)` (see `resampled`).
pub fn resample(pixels: &[u8], w: u32, h: u32, sx: u128, sy: u128) -> (px: (u8, u8, u8, u8))
    requires
        w >= 1,
        h >= 1,
        pixels@.len() == (w as int) * (h as int) * 4,
        sx / 0x800000000000 <= w - 1,
        sy / 0x800000000000 <= h - 1,
    ensures
        px.0 == resampled(pixels@, w as int, h as int, sx as int, sy as int, 0),
        px.1 == resampled(pixels@, w as int, h as int, sx as int, sy as int, 1),
        px.2 == resampled(pixels@, w as int, h as int, sx as int, sy as int, 2),
        px.3 == resampled(pixels@, w as int, h as int, sx as int, sy as int, 3),
{
    let ghost p = pixels@;
    let ghost (wi, hi, sxi, syi) = (w as int, h as int, sx as int, sy as int);
    proof {
        reveal(resampled);
    }
    let (x0, x1, nx, fx) = axis_taps(sx, w);
    let (y0, y1, ny, fy) = axis_taps(sy, h);
    proof {
        assert(nx * ny <= 0x1000000000001 * 0x1000000000001) by (nonlinear_arith)
            requires nx <= 0x1000000000001, ny <= 0x1000000000001;
        assert(fx * ny <= 0x1000000000001 * 0x1000000000001) by (nonlinear_arith)
            requires fx <= 0x1000000000001, ny <= 0x1000000000001;
        assert(nx * fy <= 0x1000000000001 * 0x1000000000001) by (nonlinear_arith)
            requires nx <= 0x1000000000001, fy <= 0x1000000000001;
        assert(fx * fy <= 0x1000000000001 * 0x1000000000001) by (nonlinear_arith)
            requires fx <= 0x1000000000001, fy <= 0x1000000000001;
    }
    let w00 = round_quotient(nx * ny, 1).0;
    let w10 = round_quotient(fx * ny, 1).0;
    let w01 = round_quotient(nx * fy, 1).0;
    let w11 = round_quotient(fx * fy, 1).0;
    assert(w00 == tap_weight(sxi, syi, false, false));
    assert(w10 == tap_weight(sxi, syi, true, false));
    assert(w01 == tap_weight(sxi, syi, false, true));
    assert(w11 == tap_weight(sxi, syi, true, true));
    let len = pixels.len();
    let i00 = pixel_offset(x0, y0, w, h, len);
    let i10 = pixel_offset(x1, y0, w, h, len);
    let i01 = pixel_offset(x0, y1, w, h, len);
    let i11 = pixel_offset(x1, y1, w, h, len);
    let r0 = (tap_terms(pixels, i00, 0, w00), tap_terms(pixels, i10, 0, w10), tap_terms(pixels, i01, 0, w01), tap_terms(pixels, i11, 0, w11));
    let r1 = (tap_terms(pixels, i00, 1, w00), tap_terms(pixels, i10, 1, w10), tap_terms(pixels, i01, 1, w01), tap_terms(pixels, i11, 1, w11));
    let r2 = (tap_terms(pixels, i00, 2, w00), tap_terms(pixels, i10, 2, w10), tap_terms(pixels, i01, 2, w01), tap_terms(pixels, i11, 2, w11));
    let alpha = sum4((r0.0).0, (r0.1).0, (r0.2).0, (r0.3).0);
    assert(alpha.0 == alpha_sum(p, wi, hi, sxi, syi));
    let c0 = sum4((r0.0).1, (r0.1).1, (r0.2).1, (r0.3).1);
    let c1 = sum4((r1.0).1, (r1.1).1, (r1.2).1, (r1.3).1);
    let c2 = sum4((r2.0).1, (r2.1).1, (r2.2).1, (r2.3).1);
    assert(c0.0 == color_sum(p, wi, hi, sxi, syi, 0));
    assert(c1.0 == color_sum(p, wi, hi, sxi, syi, 1));
    assert(c2.0 == color_sum(p, wi, hi, sxi, syi, 2));
    (
        color_byte_of(c0.0, c0.1, c0.2, alpha.0, alpha.1, alpha.2),
        color_byte_of(c1.0, c1.1, c1.2, alpha.0, alpha.1, alpha.2),
        color_byte_of(c2.0, c2.1, c2.2, alpha.0, alpha.1, alpha.2),
        alpha_byte_of(alpha.0),
    )
}

/// The source coordinate sampled for target coordinate `i` (see `sample_pos`).
pub fn sample_pos_of(i: u32, scale: u128, n: u32) -> (s: u128)
    requires
        i < 48,
        0x100000000 <= scale <= 0x600000000000000000,
        1 <= n <= 0x800000,
    ensures
        s == sample_pos(i as int, scale as int, n as int),
        s / 0x800000000000 <= n - 1,
{
    let x = ((2 * i + 1) as u128) * 0x4000000000000000000000000000;
    let a = round_quotient(x, scale).0;
    proof {
        assert(a * scale <= 2 * x + scale);
        assert(a <= 0x40000000000000000000000) by (nonlinear_arith)
            requires a * scale <= 2 * x + scale, x <= 95 * 0x4000000000000000000000000000, scale >= 0x100000000;
    }
    let v = if a < 0x400000000000 { 0 } else { round_quotient(a - 0x400000000000, 1).0 };
    let hi = round_quotient(((n as u128) - 1) * 0x800000000000, 1).0;
    proof {
        assert(rounded_int(n as int) == n);
        if n >= 2 {
            lemma_pow2_160();
            crate::binary32::lemma_rounded_quotient(((n - 1) * 0x800000000000) as int, 1);
            assert(hi < n * 0x800000000000) by (nonlinear_arith)
                requires
                    1 * 0x800000 * hi <= ((n - 1) * 0x800000000000) * 0x800001,
                    n <= 0x800000,
                    n >= 2;
        } else {
            assert(hi <= 1);
        }
    }
    if v > hi { hi } else { v }
}

/// A sample position lies within the side.
pub proof fn lemma_sample_pos_range(i: int, scale: int, n: int)
    requires
        0 <= i < 48,
        0x100000000 <= scale <= 0x600000000000000000,
        1 <= n <= 0x800000,
    ensures
        0 <= sample_pos(i, scale, n),
        sample_pos(i, scale, n) / 0x800000000000 <= n - 1,
{
    lemma_pow2_160();
    let x = (2 * i + 1) * 0x4000000000000000000000000000int;
    assert(x < pow2(160) * scale) by (nonlinear_arith)
        requires x <= 95 * 0x4000000000000000000000000000int, pow2(160) >= 0x80000000000000000000000000, scale >= 0x100000000;
    crate::binary32::lemma_rounded_at_most(x, scale);
    let a = rounded_quotient(x, scale);
    assert(a <= 0x40000000000000000000000) by (nonlinear_arith)
        requires a * scale <= 2 * x + scale, x <= 95 * 0x4000000000000000000000000000int, scale >= 0x100000000;
    if a >= 0x400000000000 {
        crate::binary32::lemma_rounded_at_most(a - 0x400000000000, 1);
    }
    let hi_x = (n - 1) * 0x800000000000;
    crate::binary32::lemma_rounded_at_most(hi_x, 1);
    let hi = rounded_quotient(hi_x, 1);
    if n >= 2 {
        crate::binary32::lemma_rounded_quotient(hi_x, 1);
        assert(hi < n * 0x800000000000) by (nonlinear_arith)
            requires 1 * 0x800000 * hi <= hi_x * 0x800001, hi_x == (n - 1) * 0x800000000000, n <= 0x800000, n >= 2;
    } else {
        assert(hi <= 1);
    }
    assert(rounded_int(n) == n);
}

/// The taps around an in-range position are pixels of the image.
proof fn lemma_tap_index(w: int, h: int, sx: int, sy: int, fx: bool, fy: bool, ch: int)
    requires
        1 <= w,
        1 <= h,
        0 <= sx,
        0 <= sy,
        sx / 0x800000000000 <= w - 1,
        sy / 0x800000000000 <= h - 1,
        0 <= ch < 4,
    ensures
        0 <= (tap_at(sy, h, fy) * w + tap_at(sx, w, fx)) * 4 + ch < w * h * 4,
        ((tap_at(sy, h, fy) * w + tap_at(sx, w, fx)) * 4 + ch) % 4 == ch,
{
    let tx = tap_at(sx, w, fx);
    let ty = tap_at(sy, h, fy);
    assert(0 <= tx < w && 0 <= ty < h);
    assert(0 <= ty * w + tx < w * h) by (nonlinear_arith)
        requires 0 <= tx < w, 0 <= ty < h;
    assert(((ty * w + tx) * 4 + ch) % 4 == ch) by (nonlinear_arith)
        requires 0 <= ch < 4, ty * w + tx >= 0;
}

/// A sample of pixels that are all fully transparent is zero in every channel.
pub proof fn lemma_resampled_transparent(p: Seq<u8>, w: int, h: int, sx: int, sy: int, ch: int)
    requires
        1 <= w,
        1 <= h,
        p.len() == w * h * 4,
        forall|k: int| 0 <= k < p.len() && k % 4 == 3 ==> p[k] == 0,
        0 <= sx,
        0 <= sy,
        sx / 0x800000000000 <= w - 1,
        sy / 0x800000000000 <= h - 1,
        0 <= ch < 4,
    ensures
        resampled(p, w, h, sx, sy, ch) == 0,
{
    reveal(resampled);
    crate::binary32::lemma_rounded_zero(255);
    crate::binary32::lemma_rounded_zero(0x400000000);
    crate::binary32::lemma_rounded_zero(1);
    assert forall|fx: bool, fy: bool| tap_value(p, w, h, sx, sy, fx, fy, 3) == 0 by {
        lemma_tap_index(w, h, sx, sy, fx, fy, 3);
    }
    assert(unit_byte(0) == 0);
    assert forall|fx: bool, fy: bool| #[trigger] alpha_term(p, w, h, sx, sy, fx, fy) == 0 by {
        assert(unit_byte(tap_value(p, w, h, sx, sy, fx, fy, 3)) * tap_weight(sx, sy, fx, fy) == 0);
    }
    assert(alpha_sum(p, w, h, sx, sy) == 0);
    assert(rounded_quotient(0int * 255, 1) == 0);
}

/// A channel of a sample depends only on that channel and the alpha of the image.
pub proof fn lemma_resampled_channel(p: Seq<u8>, q: Seq<u8>, w: int, h: int, sx: int, sy: int, ch: int)
    requires
        1 <= w,
        1 <= h,
        p.len() == w * h * 4,
        q.len() == p.len(),
        forall|k: int| 0 <= k < p.len() && (k % 4 == ch || k % 4 == 3) ==> p[k] == q[k],
        0 <= sx,
        0 <= sy,
        sx / 0x800000000000 <= w - 1,
        sy / 0x800000000000 <= h - 1,
        0 <= ch < 4,
    ensures
        resampled(p, w, h, sx, sy, ch) == resampled(q, w, h, sx, sy, ch),
{
    reveal(resampled);
    assert forall|fx: bool, fy: bool|
        tap_value(p, w, h, sx, sy, fx, fy, 3) == tap_value(q, w, h, sx, sy, fx, fy, 3)
        && tap_value(p, w, h, sx, sy, fx, fy, ch) == tap_value(q, w, h, sx, sy, fx, fy, ch) by {
        lemma_tap_index(w, h, sx, sy, fx, fy, 3);
        lemma_tap_index(w, h, sx, sy, fx, fy, ch);
    }
    assert forall|fx: bool, fy: bool| #[trigger] alpha_term(p, w, h, sx, sy, fx, fy) == alpha_term(q, w, h, sx, sy, fx, fy) by {
        assert(tap_value(p, w, h, sx, sy, fx, fy, 3) == tap_value(q, w, h, sx, sy, fx, fy, 3));
    }
    if ch < 3 {
        assert forall|fx: bool, fy: bool| #[trigger] color_term(p, w, h, sx, sy, fx, fy, ch) == color_term(q, w, h, sx, sy, fx, fy, ch) by {
            assert(tap_value(p, w, h, sx, sy, fx, fy, 3) == tap_value(q, w, h, sx, sy, fx, fy, 3));
            assert(tap_value(p, w, h, sx, sy, fx, fy, ch) == tap_value(q, w, h, sx, sy, fx, fy, ch));
        }
    }
}

} // verus!
