//! The square root of binary32 patterns.

use crate::arith::decode;
use crate::binary32::{
    binade, encloses_root, floor_sqrt, magnitude, root, round_root, significand, step, INFINITY,
    NAN, SIGN_BIT,
};
use crate::rounding::{
    bit_length, lemma_binade, lemma_binade_bounds, lemma_div_between, lemma_magnitude_next,
    lemma_pattern_parts, lemma_pow2_le, pow2_u64,
};
use vstd::arithmetic::div_mod::{lemma_div_multiples_vanish, lemma_fundamental_div_mod};
use vstd::arithmetic::power2::{
    lemma2_to64, lemma2_to64_rest, lemma_pow2_adds, lemma_pow2_pos, lemma_pow2_unfold, pow2,
};
use vstd::prelude::*;

verus! {

/// Squares keep the order of natural numbers.
pub proof fn lemma_square_order(x: nat, y: nat)
    by (nonlinear_arith)
    ensures
        x <= y ==> x * x <= y * y,
        x < y ==> x * x < y * y,
{
}

/// Every natural number lies between two consecutive squares.
pub proof fn lemma_floor_sqrt_exists(n: nat)
    ensures
        encloses_root(n, floor_sqrt(n)),
    decreases n,
{
    if n == 0 {
        let z: nat = 0;
        assert(z * z == 0 && (z + 1) * (z + 1) == 1) by (nonlinear_arith)
            requires
                z == 0,
        ;
        assert(encloses_root(n, z));
    } else {
        let m = (n - 1) as nat;
        lemma_floor_sqrt_exists(m);
        let r = floor_sqrt(m);
        if n < (r + 1) * (r + 1) {
            assert(encloses_root(n, r));
        } else {
            let r1 = r + 1;
            assert((r1 + 1) * (r1 + 1) > r1 * r1) by (nonlinear_arith);
            assert(encloses_root(n, r1));
        }
    }
}

/// The integer square root is the one number whose square and whose
/// successor's square enclose `n`.
pub proof fn lemma_floor_sqrt(n: nat, r: nat)
    requires
        encloses_root(n, r),
    ensures
        floor_sqrt(n) == r,
{
    let s = floor_sqrt(n);
    assert(encloses_root(n, s));
    if s < r {
        lemma_square_order(s + 1, r);
    }
    if r < s {
        lemma_square_order(r + 1, s);
    }
}

/// The integer square root of a number below 2^48.
pub(crate) fn isqrt(x: u64) -> (r: u64)
    requires
        x < 0x1_0000_0000_0000,
    ensures
        r * r <= x < (r + 1) * (r + 1),
        r < 0x100_0000,
{
    let mut r: u64 = 0;
    let mut i: u32 = 24;
    proof {
        lemma2_to64();
        assert(0x100_0000u64 * 0x100_0000u64 == 0x1_0000_0000_0000) by (nonlinear_arith);
    }
    while i > 0
        invariant
            i <= 24,
            r * r <= x < (r + pow2(i as nat)) * (r + pow2(i as nat)),
            r + pow2(i as nat) <= 0x100_0000,
        decreases i,
    {
        proof {
            lemma_pow2_unfold(i as nat);
        }
        i = i - 1;
        let half: u64 = pow2_u64(i);
        let cand: u64 = r + half;
        assert(cand * cand <= 0x100_0000 * 0x100_0000) by (nonlinear_arith)
            requires
                cand <= 0x100_0000,
        ;
        if cand * cand <= x {
            r = cand;
        }
    }
    r
}

/// How the square root rounds, once the radicand is written as `m * 4^e`
/// with `m` of 47 or 48 bits and the integer square root `r` of `m` is known.
pub proof fn lemma_round_root(a: nat, m: nat, e: nat, r: nat)
    requires
        a * pow2(149) == m * pow2(2 * e),
        e >= 1,
        encloses_root(m, r),
        0x80_0000 <= r < 0x100_0000,
    ensures
        round_root(a) == e * 0x80_0000 + r + (if m > r * r + r {
            1nat
        } else {
            0nat
        }),
{
    lemma2_to64();
    let n = a * pow2(149);
    let p = pow2(e);
    let pp = pow2(2 * e);
    lemma_pow2_adds(e, e);
    lemma_pow2_pos(e);
    lemma_pow2_pos(2 * e);
    let lo = r * p;
    let hi = (r + 1) * p;
    assert(lo * lo <= n < hi * hi) by (nonlinear_arith)
        requires
            n == m * pp,
            pp == p * p,
            r * r <= m < (r + 1) * (r + 1),
            lo == r * p,
            hi == (r + 1) * p,
            p > 0,
    ;
    let s = floor_sqrt(n);
    lemma_floor_sqrt_exists(n);
    if s < lo {
        lemma_square_order(s + 1, lo);
    }
    if s >= hi {
        lemma_square_order(hi, s);
    }
    lemma_pow2_adds(23, e);
    lemma_pow2_adds(24, e);
    assert(0x80_0000 * p <= lo && hi <= 0x100_0000 * p) by (nonlinear_arith)
        requires
            lo == r * p,
            hi == (r + 1) * p,
            0x80_0000 <= r < 0x100_0000,
            p > 0,
    ;
    lemma_binade(s, e);
    lemma_div_multiples_vanish(m as int, pp as int);
    assert(n == pp * m) by (nonlinear_arith)
        requires
            n == m * pp,
    ;
    lemma_floor_sqrt(m, r);
    assert(4 * n > (2 * r + 1) * (2 * r + 1) * pp <==> m > r * r + r) by (nonlinear_arith)
        requires
            n == m * pp,
            pp > 0,
    ;
}

/// The scale on which the root of a finite magnitude that is not zero is
/// rounded: the binade is not the first, and the integer part of the root on
/// its scale is a significand of 24 bits.
pub proof fn lemma_root_scale(b: nat)
    requires
        0 < b < INFINITY,
    ensures
        ({
            let n = magnitude(b) * pow2(149);
            let e = binade(floor_sqrt(n));
            let c = floor_sqrt(n / pow2(2 * e));
            &&& 1 <= e <= 189
            &&& 0x80_0000 <= c < 0x100_0000
            &&& c * c * pow2(2 * e) <= n < (c + 1) * (c + 1) * pow2(2 * e)
        }),
{
    lemma2_to64();
    lemma2_to64_rest();
    let a = magnitude(b);
    let n = a * pow2(149);
    lemma_pattern_parts(b);
    lemma_pow2_le(step(b), 253);
    lemma_pow2_adds(24, 253);
    lemma_pow2_adds(277, 149);
    lemma_pow2_adds(213, 213);
    lemma_pow2_adds(74, 74);
    lemma_pow2_le(148, 149);
    lemma_pow2_le(24, 74);
    lemma_pow2_pos(149);
    lemma_pow2_pos(step(b));
    assert(1 <= a < pow2(277)) by (nonlinear_arith)
        requires
            a == significand(b) * pow2(step(b)),
            1 <= significand(b) < 0x100_0000,
            0 < pow2(step(b)) <= pow2(253),
            pow2(277) == 0x100_0000 * pow2(253),
    ;
    assert(pow2(149) <= n < pow2(426)) by (nonlinear_arith)
        requires
            n == a * pow2(149),
            1 <= a < pow2(277),
            pow2(426) == pow2(277) * pow2(149),
            pow2(149) > 0,
    ;
    // the integer root lies in [2^74, 2^213)
    let s = floor_sqrt(n);
    lemma_floor_sqrt_exists(n);
    if s >= pow2(213) {
        lemma_square_order(pow2(213), s);
    }
    if s < pow2(74) {
        lemma_square_order(s + 1, pow2(74));
    }
    let e = binade(s);
    lemma_binade_bounds(s);
    if e >= 190 {
        lemma_pow2_le(213, 23 + e);
    }
    // the radicand on the scale of the binade lies in [2^46, 2^48)
    let unit = pow2(2 * e);
    lemma_pow2_adds(24 + e, 24 + e);
    lemma_pow2_adds(23 + e, 23 + e);
    lemma_pow2_adds(48, 2 * e);
    lemma_pow2_adds(46, 2 * e);
    lemma_pow2_pos(2 * e);
    lemma_square_order(s + 1, pow2(24 + e));
    lemma_square_order(pow2(23 + e), s);
    assert(0x4000_0000_0000 * unit <= n < 0x1_0000_0000_0000 * unit) by {
        assert(24 + e + (24 + e) == 48 + 2 * e);
        assert(23 + e + (23 + e) == 46 + 2 * e);
    }
    lemma_div_between(n as int, unit as int, 0x4000_0000_0000, 0x1_0000_0000_0000);
    let k = n / unit;
    let c = floor_sqrt(k);
    lemma_floor_sqrt_exists(k);
    assert(0x100_0000 * 0x100_0000 == 0x1_0000_0000_0000 && 0x80_0000 * 0x80_0000
        == 0x4000_0000_0000) by (nonlinear_arith);
    if c >= 0x100_0000 {
        lemma_square_order(0x100_0000, c);
    }
    if c < 0x80_0000 {
        lemma_square_order(c + 1, 0x80_0000);
    }
    lemma_fundamental_div_mod(n as int, unit as int);
    assert(c * c * unit <= n < (c + 1) * (c + 1) * unit) by (nonlinear_arith)
        requires
            c * c <= k < (c + 1) * (c + 1),
            n == unit * k + n % unit,
            0 <= n % unit < unit,
    ;
}

/// The square root of a finite magnitude that is not zero rounds to a finite
/// magnitude pattern that is not zero.
pub proof fn lemma_round_root_finite(b: nat)
    requires
        0 < b < INFINITY,
    ensures
        0 < round_root(magnitude(b)) < INFINITY,
{
    lemma_root_scale(b);
}

/// What `round_root` gives is a nearest pattern: the exact root lies between
/// the midpoints towards the two neighbours of the result. With `n` the
/// radicand in units, this compares four times `n` with the squares of twice
/// the midpoints.
pub proof fn law_root_nearest(b: nat)
    requires
        0 < b < INFINITY,
    ensures
        ({
            let n = magnitude(b) * pow2(149);
            let r = round_root(magnitude(b));
            let below = magnitude((r - 1) as nat);
            let here = magnitude(r);
            let above = magnitude(r + 1);
            (below + here) * (below + here) <= 4 * n <= (here + above) * (here + above)
        }),
{
    lemma_root_scale(b);
    let n = magnitude(b) * pow2(149);
    let e = binade(floor_sqrt(n));
    let p = pow2(e);
    let unit = pow2(2 * e);
    let c = floor_sqrt(n / unit);
    lemma_pow2_adds(e, e);
    lemma_pow2_pos(e);
    // the pattern at or below the root, and the one above it
    let g: nat = e * 0x80_0000 + c;
    lemma_pattern_parts(g);
    lemma_magnitude_next(g);
    lemma_magnitude_next(g + 1);
    lemma_magnitude_next((g - 1) as nat);
    let lo = magnitude(g);
    let hi = magnitude(g + 1);
    assert(lo == c * p && hi == (c + 1) * p);
    assert((lo + hi) * (lo + hi) == (2 * c + 1) * (2 * c + 1) * unit && 4 * (lo * lo) == 4 * (c * c
        * unit) && 4 * (hi * hi) == 4 * ((c + 1) * (c + 1) * unit)) by (nonlinear_arith)
        requires
            lo == c * p,
            hi == (c + 1) * p,
            unit == p * p,
    ;
    if 4 * n > (2 * c + 1) * (2 * c + 1) * unit {
        let above = magnitude(g + 2);
        assert((hi + above) * (hi + above) >= 4 * (hi * hi)) by (nonlinear_arith)
            requires
                above >= hi,
                hi >= 0,
        ;
    } else {
        let below = magnitude((g - 1) as nat);
        assert((below + lo) * (below + lo) <= 4 * (lo * lo)) by (nonlinear_arith)
            requires
                0 <= below <= lo,
        ;
    }
}

/// The square root of a binary32 pattern.
pub fn fsqrt(a: u32) -> (r: u32)
    ensures
        r == root(a),
{
    let ma: u32 = a % SIGN_BIT;
    if ma > INFINITY {
        return NAN;
    }
    if ma == 0 {
        return a;
    }
    if a >= SIGN_BIT {
        return NAN;
    }
    if ma == INFINITY {
        return a;
    }
    let (s, st) = decode(ma);
    let l: u32 = bit_length(s);
    proof {
        lemma2_to64();
        if l > 24 {
            lemma_pow2_le(24, (l - 1) as nat);
        }
    }
    let t: u32 = st + 149;
    // shift the significand to 47 or 48 bits, leaving an even power of two
    let k: u32 = if (48 - l + t) % 2 == 0 {
        48 - l
    } else {
        47 - l
    };
    proof {
        lemma2_to64();
        lemma2_to64_rest();
        lemma_pow2_adds(l as nat, k as nat);
        lemma_pow2_adds((l - 1) as nat, k as nat);
        lemma_pow2_pos(k as nat);
        assert(pow2((l - 1) as nat) * pow2(k as nat) <= s * pow2(k as nat) < pow2(l as nat) * pow2(
            k as nat,
        )) by (nonlinear_arith)
            requires
                pow2((l - 1) as nat) <= s < pow2(l as nat),
                pow2(k as nat) > 0,
        ;
        lemma_pow2_le(46, (l - 1 + k) as nat);
        lemma_pow2_le((l + k) as nat, 48);
    }
    let m: u64 = s * pow2_u64(k);
    let e: u32 = (t - k) / 2;
    let r: u64 = isqrt(m);
    let c: u64 = if m - r * r > r {
        r + 1
    } else {
        r
    };
    proof {
        assert(r >= 0x80_0000) by (nonlinear_arith)
            requires
                m < (r + 1) * (r + 1),
                m >= 0x4000_0000_0000,
        ;
        lemma_pow2_adds(k as nat, (2 * e) as nat);
        assert(magnitude(ma as nat) * pow2(149) == m * pow2((2 * e) as nat)) by {
            lemma_pow2_adds(st as nat, 149);
            assert(magnitude(ma as nat) * pow2(149) == s * pow2(t as nat)) by (nonlinear_arith)
                requires
                    magnitude(ma as nat) == s * pow2(st as nat),
                    pow2(t as nat) == pow2(st as nat) * pow2(149),
            ;
            assert(s * pow2(t as nat) == m * pow2((2 * e) as nat)) by (nonlinear_arith)
                requires
                    m == s * pow2(k as nat),
                    pow2(t as nat) == pow2(k as nat) * pow2((2 * e) as nat),
            ;
        }
        lemma_round_root(magnitude(ma as nat), m as nat, e as nat, r as nat);
    }
    (e * 0x80_0000 + (c as u32)) as u32
}

} // verus!
