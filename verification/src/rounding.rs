//! Rounding an exact magnitude to a binary32 pattern.

use crate::binary32::{
    binade, div_round_even, encode, magnitude, round_ratio, significand, step, INFINITY, SIGN_BIT,
};
use vstd::arithmetic::div_mod::{
    lemma_div_denominator, lemma_div_multiples_vanish, lemma_div_multiples_vanish_quotient,
    lemma_fundamental_div_mod,
    lemma_fundamental_div_mod_converse, lemma_mod_multiples_basic, lemma_truncate_middle,
};
use vstd::arithmetic::mul::{lemma_mul_is_associative, lemma_mul_is_commutative};
use vstd::arithmetic::power2::{
    lemma2_to64, lemma2_to64_rest, lemma_pow2_adds, lemma_pow2_pos,
    lemma_pow2_strictly_increases, lemma_pow2_unfold, pow2,
};
use vstd::bits::{lemma_u64_pow2_no_overflow, lemma_u64_shl_is_mul};
use vstd::prelude::*;

verus! {

/// A quotient lies between two bounds when the dividend lies between their
/// multiples.
pub proof fn lemma_div_between(n: int, d: int, lo: int, hi: int)
    by (nonlinear_arith)
    requires
        d > 0,
        lo * d <= n < hi * d,
    ensures
        lo <= n / d < hi,
{
}

/// The binade of a quantity is known from the powers of two around it.
pub proof fn lemma_binade(q: nat, e: nat)
    requires
        e == 0 ==> q < 0x100_0000,
        e > 0 ==> pow2(23 + e) <= q < pow2(24 + e),
    ensures
        binade(q) == e,
    decreases e,
{
    lemma2_to64();
    if e > 0 {
        lemma_pow2_unfold(23 + e);
        lemma_pow2_unfold(24 + e);
        lemma_pow2_pos((22 + e) as nat);
        if e == 1 {
            assert(pow2(24) == 0x100_0000);
        }
        lemma_binade(q / 2, (e - 1) as nat);
    }
}

/// A quantity lies below the upper end of its binade, and at or above the
/// lower end when the binade is not the first.
pub proof fn lemma_binade_bounds(q: nat)
    ensures
        q < pow2(24 + binade(q)),
        binade(q) > 0 ==> pow2(23 + binade(q)) <= q,
    decreases q,
{
    lemma2_to64();
    if q >= 0x100_0000 {
        let e = binade(q / 2);
        lemma_binade_bounds(q / 2);
        lemma_pow2_unfold(24 + e + 1);
        lemma_pow2_unfold(23 + e + 1);
    }
}

/// Powers of two grow with the exponent.
pub proof fn lemma_pow2_le(a: nat, b: nat)
    requires
        a <= b,
    ensures
        pow2(a) <= pow2(b),
{
    if a < b {
        lemma_pow2_strictly_increases(a, b);
    }
}

/// An exact multiple divides without rounding.
pub proof fn lemma_div_round_even_exact(n: nat, d: nat)
    requires
        d > 0,
    ensures
        div_round_even(n * d, d) == n,
{
    lemma_div_multiples_vanish(n as int, d as int);
    lemma_mod_multiples_basic(n as int, d as int);
    lemma_mul_is_commutative(n as int, d as int);
}

/// Rounding a quotient does not depend on a common factor of dividend and
/// divisor.
pub proof fn lemma_div_round_even_scale(a: nat, b: nat, k: nat)
    requires
        b > 0,
        k > 0,
    ensures
        div_round_even(a * k, b * k) == div_round_even(a, b),
{
    lemma_mul_is_commutative(a as int, k as int);
    lemma_mul_is_commutative(b as int, k as int);
    lemma_div_multiples_vanish_quotient(k as int, a as int, b as int);
    lemma_truncate_middle(a as int, k as int, b as int);
    let r = a % b;
    assert((a * k) % (b * k) == k * r);
    assert(2 * (k * r) < b * k <==> 2 * r < b) by (nonlinear_arith)
        requires
            k > 0,
    ;
    assert(2 * (k * r) > b * k <==> 2 * r > b) by (nonlinear_arith)
        requires
            k > 0,
    ;
}

/// Rounding a ratio does not depend on a common factor of its two parts.
pub proof fn lemma_round_ratio_scale(a: nat, b: nat, k: nat)
    requires
        b > 0,
        k > 0,
    ensures
        round_ratio(a * k, b * k) == round_ratio(a, b),
{
    lemma_mul_is_commutative(a as int, k as int);
    lemma_mul_is_commutative(b as int, k as int);
    lemma_div_multiples_vanish_quotient(k as int, a as int, b as int);
    let e = binade(a / b);
    lemma_pow2_pos(e);
    assert(b * pow2(e) > 0) by (nonlinear_arith)
        requires
            b > 0,
            pow2(e) > 0,
    ;
    assert((b * k) * pow2(e) == (b * pow2(e)) * k) by (nonlinear_arith);
    lemma_div_round_even_scale(a, b * pow2(e), k);
}

/// How a ratio rounds once its binade and the integer part of its scaled
/// quotient are known.
pub proof fn lemma_round_ratio_parts(num: nat, den: nat, e: nat, c: nat)
    requires
        den > 0,
        e == 0 ==> c < 0x100_0000,
        e > 0 ==> 0x80_0000 <= c < 0x100_0000,
        c * (den * pow2(e)) <= num < (c + 1) * (den * pow2(e)),
    ensures
        binade(num / den) == e,
        num / (den * pow2(e)) == c,
        num % (den * pow2(e)) == num - c * (den * pow2(e)),
        round_ratio(num, den) == e * 0x80_0000 + div_round_even(num, den * pow2(e)),
{
    lemma2_to64();
    let p = pow2(e);
    let d = den * p;
    lemma_pow2_pos(e);
    assert(d > 0) by (nonlinear_arith)
        requires
            d == den * p,
            den > 0,
            p > 0,
    ;
    assert((c + 1) * d == c * d + d) by (nonlinear_arith);
    lemma_fundamental_div_mod_converse(num as int, d as int, c as int, num - c * d);
    assert((c * p) * den == c * d && ((c + 1) * p) * den == (c + 1) * d) by (nonlinear_arith)
        requires
            d == den * p,
    ;
    lemma_div_between(num as int, den as int, (c * p) as int, ((c + 1) * p) as int);
    if e > 0 {
        lemma_pow2_adds(23, e);
        lemma_pow2_adds(24, e);
        assert(0x80_0000 * p <= c * p && (c + 1) * p <= 0x100_0000 * p) by (nonlinear_arith)
            requires
                0x80_0000 <= c < 0x100_0000,
                p > 0,
        ;
    } else {
        assert((c + 1) * p == c + 1) by (nonlinear_arith)
            requires
                p == 1,
        ;
    }
    lemma_binade(num / den, e);
}

/// A magnitude pattern is its step times 2^23 plus its significand, and its
/// significand has 24 bits when the step is not zero.
pub proof fn lemma_pattern_parts(b: nat)
    ensures
        b == step(b) * 0x80_0000 + significand(b),
        significand(b) < 0x100_0000,
        step(b) > 0 ==> significand(b) >= 0x80_0000,
        step(b) == 0 ==> b < 0x100_0000,
{
}

/// The next pattern is worth one more unit of the significand.
pub proof fn lemma_magnitude_next(b: nat)
    ensures
        magnitude(b + 1) == (significand(b) + 1) * pow2(step(b)),
        magnitude(b + 1) == magnitude(b) + pow2(step(b)),
        step(b) <= step(b + 1) <= step(b) + 1,
{
    lemma_pattern_parts(b);
    lemma_pattern_parts(b + 1);
    let s = significand(b);
    let e = step(b);
    assert((s + 1) * pow2(e) == s * pow2(e) + pow2(e)) by (nonlinear_arith);
    if (b + 1) / 0x80_0000 == b / 0x80_0000 || b / 0x80_0000 == 0 {
        assert(significand(b + 1) == s + 1);
        assert(step(b + 1) == e);
    } else {
        // the significand is full: the next pattern opens the next binade
        assert(s == 0xff_ffff);
        assert(significand(b + 1) == 0x80_0000);
        assert(step(b + 1) == e + 1);
        lemma_pow2_unfold(e + 1);
        assert(0x80_0000 * (2 * pow2(e)) == 0x100_0000 * pow2(e)) by (nonlinear_arith);
    }
}

/// Rounding is to the nearest pattern: a ratio strictly between the two
/// midpoints around the magnitude of `b` rounds to `b`.
pub proof fn lemma_round_between(num: nat, den: nat, b: nat)
    requires
        den > 0,
        b > 0 ==> (magnitude((b - 1) as nat) + magnitude(b)) * den < 2 * num,
        2 * num < (magnitude(b) + magnitude(b + 1)) * den,
    ensures
        round_ratio(num, den) == b,
{
    lemma2_to64();
    lemma_pattern_parts(b);
    lemma_magnitude_next(b);
    let s = significand(b);
    let e = step(b);
    let p = pow2(e);
    let d = den * p;
    lemma_pow2_pos(e);
    assert((magnitude(b) + magnitude(b + 1)) * den == (2 * s + 1) * d) by (nonlinear_arith)
        requires
            magnitude(b) == s * p,
            magnitude(b + 1) == (s + 1) * p,
            d == den * p,
    ;
    if num >= s * d {
        assert(num < (s + 1) * d) by (nonlinear_arith)
            requires
                2 * num < (2 * s + 1) * d,
        ;
        lemma_round_ratio_parts(num, den, e, s);
        assert(2 * (num - s * d) < d) by (nonlinear_arith)
            requires
                2 * num < (2 * s + 1) * d,
        ;
    } else {
        assert(b > 0) by {
            if b == 0 {
                assert(s * d == 0) by (nonlinear_arith)
                    requires
                        s == 0,
                ;
            }
        }
        let a = (b - 1) as nat;
        lemma_pattern_parts(a);
        lemma_magnitude_next(a);
        let sa = significand(a);
        let ea = step(a);
        let pa = pow2(ea);
        let da = den * pa;
        lemma_pow2_pos(ea);
        // magnitude(b) == (sa + 1) * pa, in the binade of the pattern below
        assert((magnitude(a) + magnitude(b)) * den == (2 * sa + 1) * da && magnitude(b) * den
            == (sa + 1) * da) by (nonlinear_arith)
            requires
                magnitude(a) == sa * pa,
                magnitude(b) == (sa + 1) * pa,
                da == den * pa,
        ;
        assert(s * d == magnitude(b) * den) by (nonlinear_arith)
            requires
                magnitude(b) == s * p,
                d == den * p,
        ;
        assert(sa * da <= num) by (nonlinear_arith)
            requires
                (2 * sa + 1) * da < 2 * num,
                da >= 0,
        ;
        lemma_round_ratio_parts(num, den, ea, sa);
        assert(2 * (num - sa * da) > da) by (nonlinear_arith)
            requires
                (2 * sa + 1) * da < 2 * num,
        ;
        assert(ea * 0x80_0000 + sa + 1 == b);
    }
}

/// What `round_ratio` gives is a nearest pattern: the ratio lies between the
/// midpoints towards the two neighbours of the result, and on a midpoint
/// only when the result is even.
pub proof fn law_round_nearest(num: nat, den: nat)
    requires
        den > 0,
    ensures
        ({
            let b = round_ratio(num, den);
            let below = magnitude((b - 1) as nat);
            let here = magnitude(b);
            let above = magnitude(b + 1);
            &&& 2 * num <= (here + above) * den
            &&& 2 * num == (here + above) * den ==> b % 2 == 0
            &&& b > 0 ==> (below + here) * den <= 2 * num
            &&& b > 0 && (below + here) * den == 2 * num ==> b % 2 == 0
        }),
{
    lemma2_to64();
    let b = round_ratio(num, den);
    let e = binade(num / den);
    let p = pow2(e);
    let d = den * p;
    lemma_pow2_pos(e);
    assert(d > 0) by (nonlinear_arith)
        requires
            d == den * p,
            den > 0,
            p > 0,
    ;
    let q = num / d;
    let r = num % d;
    lemma_fundamental_div_mod(num as int, d as int);
    assert(num == q * d + r) by (nonlinear_arith)
        requires
            num == d * q + r,
    ;
    // the quotient on the scale of the binade is a significand
    lemma_div_denominator(num as int, den as int, p as int);
    lemma_binade_bounds(num / den);
    lemma_pow2_adds(24, e);
    lemma_pow2_adds(23, e);
    lemma_div_between((num / den) as int, p as int, 0, 0x100_0000);
    if e > 0 {
        lemma_div_between((num / den) as int, p as int, 0x80_0000, 0x100_0000);
    }
    // the pattern at or below the ratio, and the one above it
    let c: nat = e * 0x80_0000 + q;
    lemma_pattern_parts(c);
    lemma_magnitude_next(c);
    lemma_magnitude_next(c + 1);
    assert(magnitude(c) == q * p);
    assert((magnitude(c) + magnitude(c + 1)) * den == (2 * q + 1) * d && magnitude(c) * den == q
        * d && magnitude(c + 1) * den == (q + 1) * d) by (nonlinear_arith)
        requires
            magnitude(c) == q * p,
            magnitude(c + 1) == (q + 1) * p,
            d == den * p,
    ;
    assert((2 * q + 1) * d == 2 * (q * d) + d && (q + 1) * d == q * d + d) by (nonlinear_arith);
    if b == c {
        if c > 0 {
            let under = (c - 1) as nat;
            lemma_magnitude_next(under);
            lemma_pow2_pos(step(under));
            assert((magnitude(under) + magnitude(c)) * den < 2 * (magnitude(c) * den))
                by (nonlinear_arith)
                requires
                    magnitude(under) < magnitude(c),
                    den > 0,
            ;
        }
    } else {
        assert(b == c + 1);
        lemma_pow2_pos(step(c + 1));
        assert(2 * (magnitude(b) * den) < (magnitude(b) + magnitude(b + 1)) * den)
            by (nonlinear_arith)
            requires
                magnitude(b) < magnitude(b + 1),
                den > 0,
        ;
    }
}

/// A ratio that is exactly the magnitude of a pattern rounds to that
/// pattern.
pub proof fn lemma_round_exact(b: nat, den: nat)
    requires
        den > 0,
    ensures
        round_ratio(magnitude(b) * den, den) == b,
{
    let mag = magnitude(b);
    lemma_magnitude_next(b);
    lemma_pow2_pos(step(b));
    assert(2 * (mag * den) < (mag + magnitude(b + 1)) * den) by (nonlinear_arith)
        requires
            mag < magnitude(b + 1),
            den > 0,
    ;
    if b > 0 {
        let below = (b - 1) as nat;
        lemma_magnitude_next(below);
        lemma_pow2_pos(step(below));
        assert((magnitude(below) + mag) * den < 2 * (mag * den)) by (nonlinear_arith)
            requires
                magnitude(below) < mag,
                den > 0,
        ;
    }
    lemma_round_between(mag * den, den, b);
}

/// A quantity of zero rounds to positive zero.
pub proof fn lemma_round_zero(den: nat)
    requires
        den > 0,
    ensures
        round_ratio(0, den) == 0,
{
    assert(magnitude(0) == 0) by (nonlinear_arith)
        requires
            magnitude(0) == 0 * pow2(0),
    ;
    assert(magnitude(0) * den == 0) by (nonlinear_arith)
        requires
            magnitude(0) == 0,
    ;
    lemma_round_exact(0, den);
}

/// The significand that `m * 2^up / 2^down` rounds to, for `m` of `l` bits:
/// `m` shifted so that it has 24 bits, or less far in the subnormal range.
pub open spec fn rounded_significand(m: nat, l: nat, up: nat, down: nat) -> nat {
    let shift = if l + up <= 24 + down {
        up - down
    } else {
        24 - l
    };
    if shift >= 0 {
        m * pow2(shift as nat)
    } else {
        div_round_even(m, pow2((-shift) as nat))
    }
}

/// The step of the binade that holds `m * 2^up / 2^down`, for `m` of `l` bits.
pub open spec fn rounded_step(l: nat, up: nat, down: nat) -> nat {
    if l + up <= 24 + down {
        0
    } else {
        (l + up - down - 24) as nat
    }
}

/// How `m * 2^up / 2^down` rounds, given the bit length `l` of `m`.
pub proof fn lemma_round_scaled(m: nat, l: nat, up: nat, down: nat)
    requires
        l >= 1,
        pow2((l - 1) as nat) <= m < pow2(l),
        up == 0 || down == 0,
    ensures
        round_ratio(m * pow2(up), pow2(down)) == rounded_step(l, up, down) * 0x80_0000
            + rounded_significand(m, l, up, down),
{
    lemma2_to64();
    let num = m * pow2(up);
    let den = pow2(down);
    let e = rounded_step(l, up, down);
    lemma_pow2_pos(up);
    lemma_pow2_pos(down);
    lemma_pow2_pos(e);
    // the exact value lies in [2^(l - 1 + up - down), 2^(l + up - down))
    assert(pow2((l - 1) as nat) * pow2(up) <= num < pow2(l) * pow2(up)) by (nonlinear_arith)
        requires
            num == m * pow2(up),
            pow2((l - 1) as nat) <= m < pow2(l),
            pow2(up) > 0,
    ;
    lemma_pow2_adds((l - 1) as nat, up);
    lemma_pow2_adds(l, up);
    if l + up <= 24 + down {
        // subnormal range or first binade: the unit is the spacing
        lemma_pow2_le(l + up, 24 + down);
        lemma_pow2_adds(24, down);
        lemma_div_between(num as int, den as int, 0, 0x100_0000);
        lemma_binade(num / den, 0);
        assert(den * pow2(0) == den) by (nonlinear_arith)
            requires
                pow2(0) == 1,
        ;
        if up >= down {
            assert(down == 0);
            assert(den == 1);
            lemma_div_round_even_exact(num, 1);
            assert(num * 1 == num) by (nonlinear_arith);
        } else {
            assert(num == m) by (nonlinear_arith)
                requires
                    num == m * pow2(up),
                    pow2(up) == 1,
            ;
        }
    } else if down == 0 {
        // a whole number of units beyond the first binade
        assert(den == 1);
        assert(num / den == num);
        assert(l - 1 + up == 23 + e);
        lemma_binade(num, e);
        if l <= 24 {
            // `m` is shifted up to 24 bits: nothing is rounded away
            let s = (24 - l) as nat;
            assert(up == s + e);
            lemma_pow2_adds(s, e);
            lemma_mul_is_associative(m as int, pow2(s) as int, pow2(e) as int);
            lemma_div_round_even_exact(m * pow2(s), pow2(e));
            assert(den * pow2(e) == pow2(e)) by (nonlinear_arith)
                requires
                    den == 1,
            ;
        } else {
            // the bits of `m` below the 24 highest are rounded away
            let k = (l - 24) as nat;
            assert(e == k + up);
            lemma_pow2_adds(k, up);
            lemma_pow2_pos(k);
            lemma_div_round_even_scale(m, pow2(k), pow2(up));
            assert(den * pow2(e) == pow2(k) * pow2(up)) by (nonlinear_arith)
                requires
                    den == 1,
                    pow2(e) == pow2(k) * pow2(up),
            ;
        }
    } else {
        // a fraction of units that still lies beyond the first binade
        assert(num == m) by (nonlinear_arith)
            requires
                num == m * pow2(up),
                pow2(up) == 1,
        ;
        assert(l - 24 == down + e);
        lemma_pow2_adds(23 + e, down);
        lemma_pow2_adds(24 + e, down);
        lemma_div_between(num as int, den as int, pow2(23 + e) as int, pow2(24 + e) as int);
        lemma_binade(num / den, e);
        lemma_pow2_adds(down, e);
    }
}

/// The number of bits of `m`: the least `l` with `m < 2^l`.
pub(crate) fn bit_length(m: u64) -> (l: u32)
    requires
        m < 0x8000_0000_0000_0000,
    ensures
        l <= 63,
        m < pow2(l as nat),
        l > 0 ==> pow2((l - 1) as nat) <= m,
        m == 0 <==> l == 0,
{
    let mut l: u32 = 0;
    let mut p: u64 = 1;
    proof {
        lemma2_to64();
        lemma2_to64_rest();
    }
    while p <= m
        invariant
            l <= 63,
            p == pow2(l as nat),
            l > 0 ==> pow2((l - 1) as nat) <= m,
            m < 0x8000_0000_0000_0000,
            l == 0 ==> p == 1,
            pow2(63) == 0x8000_0000_0000_0000,
        decreases 64 - l,
    {
        proof {
            lemma_pow2_unfold((l + 1) as nat);
            if l >= 63 {
                lemma_pow2_le(63, l as nat);
            }
        }
        p = p * 2;
        l = l + 1;
    }
    l
}

/// `2^k` as a machine integer.
pub(crate) fn pow2_u64(k: u32) -> (p: u64)
    requires
        k <= 63,
    ensures
        p == pow2(k as nat),
{
    proof {
        lemma_u64_pow2_no_overflow(k as nat);
        lemma_u64_shl_is_mul(1, k as u64);
    }
    1u64 << (k as u64)
}

/// `m / 2^k`, rounded to nearest, ties to even.
pub(crate) fn shift_round(m: u64, k: u32) -> (n: u64)
    requires
        m < 0x8000_0000_0000_0000,
    ensures
        n == div_round_even(m as nat, pow2(k as nat)),
        n <= m,
{
    if k >= 64 {
        proof {
            lemma2_to64_rest();
            lemma_pow2_le(64, k as nat);
            lemma_fundamental_div_mod_converse(m as int, pow2(k as nat) as int, 0, m as int);
        }
        return 0;
    }
    let d: u64 = pow2_u64(k);
    proof {
        lemma_pow2_pos(k as nat);
        lemma_fundamental_div_mod(m as int, d as int);
    }
    let q: u64 = m / d;
    let r: u64 = m % d;
    assert(q * d + r == m) by (nonlinear_arith)
        requires
            m == d * q + r,
    ;
    // rounding up stays within `m`: beyond a divisor of one the quotient is
    // at most half of `m`
    assert(d >= 2 ==> q + 1 <= m || q == 0) by (nonlinear_arith)
        requires
            q * d + r == m,
            d > 0,
            r >= 0,
    ;
    if r < d - r {
        q
    } else if r > d - r {
        q + 1
    } else {
        q + q % 2
    }
}

/// The pattern of the binary32 value nearest to `m * 2^up / 2^down` units,
/// with the given sign.
pub(crate) fn round_pack(negative: bool, m: u64, up: u32, down: u32) -> (r: u32)
    requires
        m < 0x8000_0000_0000_0000,
        up == 0 || down == 0,
        up <= 1024,
        down <= 1024,
    ensures
        r == encode(negative, round_ratio(m as nat * pow2(up as nat), pow2(down as nat))),
{
    let sign: u32 = if negative {
        SIGN_BIT
    } else {
        0
    };
    if m == 0 {
        proof {
            lemma_pow2_pos(down as nat);
            assert(m as nat * pow2(up as nat) == 0) by (nonlinear_arith)
                requires
                    m == 0,
            ;
            lemma_fundamental_div_mod_converse(0, pow2(down as nat) as int, 0, 0);
            lemma_binade(0, 0);
            lemma2_to64();
            assert(pow2(down as nat) * pow2(0) == pow2(down as nat)) by (nonlinear_arith)
                requires
                    pow2(0) == 1,
            ;
        }
        return sign;
    }
    let l: u32 = bit_length(m);
    proof {
        lemma_round_scaled(m as nat, l as nat, up as nat, down as nat);
    }
    let step: u32 = if l + up <= 24 + down {
        0
    } else {
        l + up - down - 24
    };
    let n: u64 = if l + up <= 24 + down {
        if up >= down {
            proof {
                lemma_pow2_le((l + up) as nat, 24);
                lemma_pow2_adds(l as nat, up as nat);
                lemma2_to64();
                lemma_pow2_pos(up as nat);
                assert(m * pow2(up as nat) < pow2(l as nat) * pow2(up as nat)) by (nonlinear_arith)
                    requires
                        m < pow2(l as nat),
                        pow2(up as nat) > 0,
                ;
            }
            m * pow2_u64(up)
        } else {
            shift_round(m, down)
        }
    } else if l <= 24 {
        proof {
            lemma_pow2_adds(l as nat, (24 - l) as nat);
            lemma2_to64();
            lemma_pow2_pos((24 - l) as nat);
            assert(m * pow2((24 - l) as nat) < pow2(l as nat) * pow2((24 - l) as nat))
                by (nonlinear_arith)
                requires
                    m < pow2(l as nat),
                    pow2((24 - l) as nat) > 0,
            ;
        }
        m * pow2_u64(24 - l)
    } else {
        shift_round(m, l - 24)
    };
    if step >= 255 {
        return sign + INFINITY;
    }
    let bits: u64 = (step as u64) * 0x80_0000 + n;
    if bits >= 0x7f80_0000 {
        sign + INFINITY
    } else {
        sign + (bits as u32)
    }
}

} // verus!
