//! Round-to-nearest arithmetic at 24 significant bits (IEEE 754 binary32), on
//! integers: the icon geometry is fixed by the values binary32 arithmetic gives.

use vstd::prelude::*;

use vstd::arithmetic::power2::{lemma2_to64, lemma_pow2_pos, lemma_pow2_unfold, pow2};

verus! {

/// The `t >= start` with `2^t * q <= x < 2^(t+1) * q`, searched up to 160.
pub open spec fn level(x: int, q: int, t: nat) -> nat
    decreases 160 - t,
{
    if t >= 160 || x < pow2(t + 1) * q {
        t
    } else {
        level(x, q, t + 1)
    }
}

/// `x / q` rounded to the nearest number with 24 significant bits, ties to an
/// even last bit, for `x >= 2^23 * q`.
pub open spec fn rounded_quotient(x: int, q: int) -> int {
    let t = level(x, q, 23);
    let u = pow2((t - 23) as nat) as int;
    let d = q * u;
    let n = x / d;
    let rem = x % d;
    let k = if 2 * rem < d {
        n
    } else if 2 * rem > d {
        n + 1
    } else if n % 2 == 0 {
        n
    } else {
        n + 1
    };
    k * u
}

/// A positive integer rounded to 24 significant bits.
pub open spec fn rounded_int(w: int) -> int {
    if w < 0x1000000 { w } else { rounded_quotient(w, 1) }
}

proof fn lemma_level(x: int, q: int, t: nat)
    requires
        q > 0,
        pow2(t) * q <= x,
        x < pow2(160) * q,
    ensures
        t <= level(x, q, t) < 160,
        pow2(level(x, q, t)) * q <= x < pow2(level(x, q, t) + 1) * q,
    decreases 160 - t,
{
    lemma_pow2_pos(t);
    if t >= 160 {
        if t > 160 {
            vstd::arithmetic::power2::lemma_pow2_strictly_increases(160, t);
        }
        assert(pow2(160) * q <= pow2(t) * q) by (nonlinear_arith)
            requires pow2(160) <= pow2(t), q > 0;
    } else if x >= pow2(t + 1) * q {
        lemma_level(x, q, t + 1);
    }
}

/// How far a rounded quotient is from the exact one: within 2^-23 of it.
pub proof fn lemma_rounded_quotient(x: int, q: int)
    requires
        q > 0,
        0x800000 * q <= x,
        x < pow2(160) * q,
    ensures
        q * 0x800000 * rounded_quotient(x, q) <= x * 0x800001,
        q * 0x800000 * rounded_quotient(x, q) > x * 0x7fffff,
        rounded_quotient(x, q) > 0,
{
    lemma2_to64();
    lemma_level(x, q, 23);
    let t = level(x, q, 23);
    let u = pow2((t - 23) as nat) as int;
    lemma_pow2_pos((t - 23) as nat);
    vstd::arithmetic::power2::lemma_pow2_adds((t - 23) as nat, 23);
    assert(pow2(t) == u * 0x800000);
    let d = q * u;
    assert(d > 0) by (nonlinear_arith)
        requires d == q * u, q > 0, u > 0;
    let n = x / d;
    let rem = x % d;
    vstd::arithmetic::div_mod::lemma_fundamental_div_mod(x, d);
    assert(0 <= rem < d);
    let r = rounded_quotient(x, q);
    assert(n * u <= r <= (n + 1) * u) by (nonlinear_arith)
        requires
            r == (if 2 * rem < d { n } else if 2 * rem > d { n + 1 } else if n % 2 == 0 { n } else { n + 1 }) * u,
            u > 0;
    assert(q * 0x800000 * u <= x) by (nonlinear_arith)
        requires pow2(t) * q <= x, pow2(t) == u * 0x800000;
    assert(q * 0x800000 * r <= x * 0x800001) by (nonlinear_arith)
        requires
            r <= (n + 1) * u,
            x == d * n + rem,
            0 <= rem,
            d == q * u,
            q > 0,
            q * 0x800000 * u <= x;
    assert(q * 0x800000 * r > x * 0x7fffff) by (nonlinear_arith)
        requires
            n * u <= r,
            x == d * n + rem,
            rem < d,
            d == q * u,
            q > 0,
            q * 0x800000 * u <= x;
    assert(r > 0) by (nonlinear_arith)
        requires q * 0x800000 * r > x * 0x7fffff, x > 0, q > 0;
}

/// The level search only climbs while `2^t * q <= x`.
proof fn lemma_level_floor(x: int, q: int, t: nat)
    requires
        q > 0,
        pow2(t) * q <= x,
    ensures
        t <= level(x, q, t),
        pow2(level(x, q, t)) * q <= x,
    decreases 160 - t,
{
    if t < 160 && x >= pow2(t + 1) * q {
        lemma_level_floor(x, q, t + 1);
    }
}

proof fn lemma_level_scale(x: int, q: int, c: int, t: nat)
    requires
        q > 0,
        c > 0,
    ensures
        level(c * x, c * q, t) == level(x, q, t),
    decreases 160 - t,
{
    assert(pow2(t + 1) * (c * q) == c * (pow2(t + 1) * q)) by (nonlinear_arith);
    assert((c * x < c * (pow2(t + 1) * q)) == (x < pow2(t + 1) * q)) by (nonlinear_arith)
        requires c > 0;
    if t < 160 {
        lemma_level_scale(x, q, c, t + 1);
    }
}

/// Scaling both operands by the same positive factor leaves the rounded
/// quotient unchanged.
pub proof fn lemma_rounded_scale(x: int, q: int, c: int)
    requires
        q > 0,
        c > 0,
        x >= 0,
    ensures
        rounded_quotient(c * x, c * q) == rounded_quotient(x, q),
{
    lemma_level_scale(x, q, c, 23);
    let t = level(x, q, 23);
    let u = pow2((t - 23) as nat) as int;
    lemma_pow2_pos((t - 23) as nat);
    let d = q * u;
    assert(d > 0) by (nonlinear_arith)
        requires d == q * u, q > 0, u > 0;
    let n = x / d;
    let rem = x % d;
    vstd::arithmetic::div_mod::lemma_fundamental_div_mod(x, d);
    assert(c * q * u == c * d) by (nonlinear_arith)
        requires d == q * u;
    assert(c * x == n * (c * d) + c * rem) by (nonlinear_arith)
        requires x == d * n + rem;
    assert(0 <= c * rem < c * d) by (nonlinear_arith)
        requires 0 <= rem < d, c > 0;
    vstd::arithmetic::div_mod::lemma_fundamental_div_mod_converse_div(c * x, c * d, n, c * rem);
    vstd::arithmetic::div_mod::lemma_fundamental_div_mod_converse_mod(c * x, c * d, n, c * rem);
    assert((2 * (c * rem) < c * d) == (2 * rem < d)) by (nonlinear_arith)
        requires c > 0;
    assert((2 * (c * rem) > c * d) == (2 * rem > d)) by (nonlinear_arith)
        requires c > 0;
}

/// A rounded quotient of at least twice `b` is at least `b`, for `b >= 2^23`.
pub proof fn lemma_rounded_at_least(x: int, q: int, b: int)
    requires
        q > 0,
        b >= 0x800000,
        x >= 2 * b * q,
    ensures
        rounded_quotient(x, q) >= b,
{
    lemma2_to64();
    assert(pow2(23) * q <= x) by (nonlinear_arith)
        requires pow2(23) == 0x800000, b >= 0x800000, x >= 2 * b * q, q > 0;
    lemma_level_floor(x, q, 23);
    let t = level(x, q, 23);
    let u = pow2((t - 23) as nat) as int;
    lemma_pow2_pos((t - 23) as nat);
    vstd::arithmetic::power2::lemma_pow2_adds((t - 23) as nat, 23);
    let d = q * u;
    assert(d > 0) by (nonlinear_arith)
        requires d == q * u, q > 0, u > 0;
    let n = x / d;
    let rem = x % d;
    vstd::arithmetic::div_mod::lemma_fundamental_div_mod(x, d);
    let r = rounded_quotient(x, q);
    assert(n * u <= r) by (nonlinear_arith)
        requires
            r == (if 2 * rem < d { n } else if 2 * rem > d { n + 1 } else if n % 2 == 0 { n } else { n + 1 }) * u,
            u > 0;
    assert(q * 0x800000 * u <= x) by (nonlinear_arith)
        requires pow2(t) * q <= x, pow2(t) == u * 0x800000;
    assert(r * q >= n * d) by (nonlinear_arith)
        requires n * u <= r, d == q * u, q > 0;
    assert(n * d > x - d);
    assert(d * 0x800000 <= x) by (nonlinear_arith)
        requires q * 0x800000 * u <= x, d == q * u;
    assert(0x800000 * (r * q) > 0x7fffff * x);
    assert(0x7fffff * x >= 0x800000 * (b * q)) by (nonlinear_arith)
        requires x >= 2 * b * q, b >= 0, q > 0;
    assert(r >= b) by (nonlinear_arith)
        requires 0x800000 * (r * q) > 0x800000 * (b * q), q > 0;
}

/// Zero rounds to zero.
pub proof fn lemma_rounded_zero(q: int)
    requires
        q > 0,
    ensures
        rounded_quotient(0, q) == 0,
{
    lemma2_to64();
    lemma_pow2_pos(24);
    assert(0 < pow2(24) * q) by (nonlinear_arith)
        requires pow2(24) > 0, q > 0;
    assert(level(0, q, 23) == 23);
    let d = q * 1;
    assert(d == q);
    assert(0int / d == 0 && 0int % d == 0) by (nonlinear_arith)
        requires d > 0;
}

/// A rounded quotient is at most twice the exact one, plus one.
pub proof fn lemma_rounded_at_most(x: int, q: int)
    requires
        q > 0,
        0 <= x,
        x < pow2(160) * q,
    ensures
        rounded_quotient(x, q) * q <= 2 * x + q,
        rounded_quotient(x, q) >= 0,
{
    lemma2_to64();
    let t = level(x, q, 23);
    if x < pow2(24) * q {
        assert(t == 23);
    } else {
        lemma_pow2_unfold(24);
        assert(pow2(23) * q <= x) by (nonlinear_arith)
            requires pow2(24) * q <= x, pow2(24) == 2 * pow2(23), q > 0, pow2(23) > 0;
        lemma_level(x, q, 23);
    }
    let u = pow2((t - 23) as nat) as int;
    lemma_pow2_pos((t - 23) as nat);
    vstd::arithmetic::power2::lemma_pow2_adds((t - 23) as nat, 23);
    let d = q * u;
    assert(d > 0) by (nonlinear_arith)
        requires d == q * u, q > 0, u > 0;
    let n = x / d;
    let rem = x % d;
    vstd::arithmetic::div_mod::lemma_fundamental_div_mod(x, d);
    let r = rounded_quotient(x, q);
    let k = if 2 * rem < d { n } else if 2 * rem > d { n + 1 } else if n % 2 == 0 { n } else { n + 1 };
    assert(r == k * u);
    assert(n >= 0) by (nonlinear_arith)
        requires x == d * n + rem, rem < d, x >= 0, d > 0;
    assert(r * q <= (n + 1) * d) by (nonlinear_arith)
        requires r == k * u, k <= n + 1, k >= 0, d == q * u, q > 0, u > 0;
    assert((n + 1) * d == n * d + d) by (nonlinear_arith);
    assert(n * d <= x);
    if t > 23 {
        assert(q * u <= x) by (nonlinear_arith)
            requires pow2(t) * q <= x, pow2(t) == u * 0x800000, u > 0, q > 0;
        assert(r * q <= 2 * x + q);
    } else {
        assert(u == 1);
        assert(d == q) by (nonlinear_arith)
            requires d == q * u, u == 1;
        assert(r * q <= 2 * x + q);
    }
    assert(r >= 0) by (nonlinear_arith)
        requires r == k * u, k >= 0, u > 0;
}

/// `x / q` rounded to 24 significant bits (see `rounded_quotient`), with the
/// result's significand `k` and exponent `s`: `r == k * 2^s`.
pub fn round_quotient(x: u128, q: u128) -> (r: (u128, u128, u32))
    requires
        q > 0,
        x < 0x8000_0000_0000_0000_0000_0000_0000_0000,
    ensures
        r.0 == rounded_quotient(x as int, q as int),
        r.0 == r.1 * pow2(r.2 as nat),
        r.1 <= 0x1000000,
        r.2 > 0 ==> r.1 >= 0x800000,
        r.0 * q <= 2 * x + q,
        r.2 <= 104,
{
    proof {
        lemma2_to64();
        assert(pow2(24) == 0x1000000);
        assert(pow2(23) == 0x800000);
        assert(pow2(0) == 1);
    }
    let mut t: u32 = 23;
    let mut u: u128 = 1;
    let mut p: u128 = 0x1000000;
    while x / p >= q
        invariant
            q > 0,
            23 <= t <= 126,
            x < 0x8000_0000_0000_0000_0000_0000_0000_0000,
            p == pow2((t + 1) as nat),
            u == pow2((t - 23) as nat),
            0 < u <= p,
            t == 23 || pow2(t as nat) * q <= x,
            level(x as int, q as int, t as nat) == level(x as int, q as int, 23),
        decreases 127 - t,
    {
        proof {
            assert(p * q <= x) by (nonlinear_arith)
                requires x / p >= q, p > 0;
            assert(p <= x) by (nonlinear_arith)
                requires p * q <= x, q > 0, p > 0;
            lemma_pow2_unfold((t + 2) as nat);
            lemma_pow2_unfold((t + 1 - 23) as nat);
            if t + 1 > 126 {
                assert(pow2(127) == 0x8000_0000_0000_0000_0000_0000_0000_0000) by {
                    vstd::arithmetic::power2::lemma_pow2_adds(64, 63);
                    vstd::arithmetic::power2::lemma2_to64_rest();
                }
                if t + 1 > 127 {
                    vstd::arithmetic::power2::lemma_pow2_strictly_increases(127, (t + 1) as nat);
                }
            }
        }
        t = t + 1;
        u = u * 2;
        p = p * 2;
    }
    proof {
        assert(x < p * q) by (nonlinear_arith)
            requires x / p < q, p > 0, q > 0;
        assert(level(x as int, q as int, t as nat) == t);
        vstd::arithmetic::power2::lemma_pow2_adds((t - 23) as nat, 23);
        vstd::arithmetic::power2::lemma_pow2_adds((t - 23) as nat, 24);
        assert(pow2((t + 1) as nat) == u * 0x1000000);
        if t > 23 {
            assert(q * u <= x) by (nonlinear_arith)
                requires pow2(t as nat) * q <= x, pow2(t as nat) == u * 0x800000, u > 0, q > 0;
        }
    }
    let d = q * u;
    proof {
        assert(d > 0) by (nonlinear_arith)
            requires d == q * u, q > 0, u > 0;
    }
    let n = x / d;
    let rem = x % d;
    proof {
        vstd::arithmetic::div_mod::lemma_fundamental_div_mod(x as int, d as int);
        assert(n < 0x1000000) by (nonlinear_arith)
            requires x == d * n + rem, 0 <= rem, x < p * q, p == u * 0x1000000, d == q * u, q > 0, u > 0;
        if t > 23 {
            assert(n >= 0x800000) by (nonlinear_arith)
                requires x == d * n + rem, rem < d, pow2(t as nat) * q <= x, pow2(t as nat) == u * 0x800000, d == q * u, q > 0, u > 0;
        }
    }
    let k = if 2 * rem < d {
        n
    } else if 2 * rem > d {
        n + 1
    } else if n % 2 == 0 {
        n
    } else {
        n + 1
    };
    proof {
        assert(k * u <= 0x1000000 * u) by (nonlinear_arith)
            requires k <= 0x1000000, u > 0;
        assert(k * u * q <= (n + 1) * d) by (nonlinear_arith)
            requires k <= n + 1, d == q * u, q > 0, u > 0;
        assert((n + 1) * d == n * d + d) by (nonlinear_arith);
        assert(n * d <= x);
        if t == 23 {
            assert(d == q);
        }
        assert(k * u * q <= 2 * x + q);
    }
    (k * u, k, t - 23)
}

/// 2^160 is far above every quotient rounded here.
pub proof fn lemma_pow2_160()
    ensures
        pow2(160) >= 0x80000000000000000000000000,
{
    lemma2_to64();
    vstd::arithmetic::power2::lemma2_to64_rest();
    vstd::arithmetic::power2::lemma_pow2_adds(64, 39);
    vstd::arithmetic::power2::lemma_pow2_strictly_increases(103, 160);
}

/// A rounded positive integer stays within 2^-23 of it.
pub proof fn lemma_rounded_int(w: int)
    requires
        1 <= w <= 0xffff_ffff,
    ensures
        0x800000 * rounded_int(w) <= w * 0x800001,
        0x800000 * rounded_int(w) >= w * 0x7fffff,
        1 <= rounded_int(w) <= 0x2_0000_0000,
{
    if w >= 0x1000000 {
        lemma_pow2_160();
        lemma_rounded_quotient(w, 1);
    }
}

/// A positive integer rounded to 24 significant bits (see `rounded_int`).
pub fn round_int(w: u32) -> (r: u128)
    requires
        w > 0,
    ensures
        r == rounded_int(w as int),
        1 <= r <= 0x2_0000_0000,
{
    proof {
        lemma_rounded_int(w as int);
    }
    if w < 0x1000000 {
        w as u128
    } else {
        round_quotient(w as u128, 1).0
    }
}

} // verus!
