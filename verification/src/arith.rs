//! Addition, subtraction and multiplication of binary32 patterns.

use crate::binary32::{
    difference, encode, magnitude, negated, product, round_sum, significand, step, sum, INFINITY,
    NAN, NEG_ZERO, SIGN_BIT, ZERO,
};
use crate::rounding::{
    lemma_magnitude_next, lemma_pattern_parts, lemma_pow2_le, lemma_round_between,
    lemma_round_ratio_scale, pow2_u64, round_pack,
};
use vstd::arithmetic::power2::{lemma2_to64, lemma_pow2_adds, lemma_pow2_pos, pow2};
use vstd::prelude::*;

verus! {

/// The significand and the step of a finite magnitude pattern.
pub(crate) fn decode(b: u32) -> (r: (u64, u32))
    requires
        b < INFINITY,
    ensures
        r.0 == significand(b as nat),
        r.1 == step(b as nat),
        r.0 < 0x100_0000,
        r.1 <= 253,
        r.1 > 0 ==> r.0 >= 0x80_0000,
        b == r.1 * 0x80_0000 + r.0,
{
    let exponent: u32 = b / 0x80_0000;
    let fraction: u32 = b % 0x80_0000;
    if exponent == 0 {
        (fraction as u64, 0)
    } else {
        ((fraction + 0x80_0000) as u64, exponent - 1)
    }
}

/// A magnitude of `m` units with a sign.
pub open spec fn signed(negative: bool, m: nat) -> int {
    if negative {
        -(m as int)
    } else {
        m as int
    }
}

/// An addend so small beside a normal value that the sum rounds back to
/// that value.
proof fn lemma_sum_absorbs(nx: bool, bx: nat, ny: bool, t: nat, ey: nat)
    requires
        bx < INFINITY,
        step(bx) >= ey + 26,
        t < pow2(24 + ey),
    ensures
        round_sum(signed(nx, magnitude(bx)) + signed(ny, t), nx && ny) == encode(nx, bx),
{
    lemma2_to64();
    let ex = step(bx);
    let mag = magnitude(bx);
    let below = (bx - 1) as nat;
    lemma_pattern_parts(bx);
    lemma_magnitude_next(bx);
    lemma_magnitude_next(below);
    lemma_pow2_le(25 + ey, (ex - 1) as nat);
    lemma_pow2_le((ex - 1) as nat, step(below));
    lemma_pow2_le((ex - 1) as nat, ex);
    lemma_pow2_adds(1, 24 + ey);
    lemma_pow2_pos(ex);
    // twice the addend is less than the gap to either neighbour
    assert(2 * t < pow2(step(below)) && 2 * t < pow2(ex));
    assert(mag >= pow2(ex)) by (nonlinear_arith)
        requires
            mag == significand(bx) * pow2(ex),
            significand(bx) >= 1,
    ;
    let num: nat = if nx == ny {
        mag + t
    } else {
        (mag - t) as nat
    };
    assert(magnitude(below) + mag < 2 * num < mag + magnitude(bx + 1));
    lemma_round_between(num, 1, bx);
}

/// Adds two finite values given by sign, significand and step, the first
/// having the larger step.
fn add_ordered(nx: bool, bx: u32, sx: u64, ex: u32, ny: bool, sy: u64, ey: u32) -> (r: u32)
    requires
        bx < INFINITY,
        sx == significand(bx as nat),
        ex == step(bx as nat),
        sy < 0x100_0000,
        ey <= ex <= 253,
    ensures
        r == round_sum(
            signed(nx, magnitude(bx as nat)) + signed(ny, sy as nat * pow2(ey as nat)),
            nx && ny,
        ),
{
    let sign_x: u32 = if nx {
        SIGN_BIT
    } else {
        0
    };
    proof {
        lemma2_to64();
        lemma_pattern_parts(bx as nat);
        lemma_pow2_pos(ey as nat);
    }
    if ex - ey >= 26 {
        proof {
            lemma_pow2_adds(24, ey as nat);
            assert(sy * pow2(ey as nat) < 0x100_0000 * pow2(ey as nat)) by (nonlinear_arith)
                requires
                    sy < 0x100_0000,
                    pow2(ey as nat) > 0,
            ;
            lemma_sum_absorbs(nx, bx as nat, ny, sy as nat * pow2(ey as nat), ey as nat);
        }
        return sign_x + bx;
    }
    let shift: u32 = ex - ey;
    proof {
        lemma_pow2_le(shift as nat, 25);
        lemma_pow2_adds(shift as nat, ey as nat);
        assert(sx * pow2(shift as nat) < 0x100_0000 * 0x200_0000) by (nonlinear_arith)
            requires
                sx < 0x100_0000,
                pow2(shift as nat) <= 0x200_0000,
        ;
    }
    let big: u64 = sx * pow2_u64(shift);
    let ghost unit = pow2(ey as nat);
    assert(magnitude(bx as nat) == big * unit) by (nonlinear_arith)
        requires
            magnitude(bx as nat) == sx * pow2(ex as nat),
            pow2(ex as nat) == pow2(shift as nat) * unit,
            big == sx * pow2(shift as nat),
    ;
    let negative: bool = if nx == ny || big >= sy {
        nx
    } else {
        ny
    };
    let m: u64 = if nx == ny {
        big + sy
    } else if big >= sy {
        big - sy
    } else {
        sy - big
    };
    proof {
        let s = signed(nx, magnitude(bx as nat)) + signed(ny, sy as nat * unit);
        assert(s == signed(negative, m as nat * unit)) by (nonlinear_arith)
            requires
                s == signed(nx, big as nat * unit) + signed(ny, sy as nat * unit),
                negative == (if nx == ny || big >= sy {
                    nx
                } else {
                    ny
                }),
                m == (if nx == ny {
                    big + sy
                } else if big >= sy {
                    big - sy
                } else {
                    sy - big
                }),
        ;
        assert(m > 0 ==> m * unit > 0) by (nonlinear_arith)
            requires
                unit > 0,
        ;
        assert(m == 0 ==> m * unit == 0) by (nonlinear_arith);
    }
    if m == 0 {
        return if nx && ny {
            NEG_ZERO
        } else {
            ZERO
        };
    }
    round_pack(negative, m, ey, 0)
}

/// Adds two binary32 patterns.
pub fn fadd(a: u32, b: u32) -> (r: u32)
    ensures
        r == sum(a, b),
{
    let ma: u32 = a % SIGN_BIT;
    let mb: u32 = b % SIGN_BIT;
    let na: bool = a >= SIGN_BIT;
    let nb: bool = b >= SIGN_BIT;
    if ma > INFINITY || mb > INFINITY {
        return NAN;
    }
    if ma == INFINITY {
        if mb == INFINITY && na != nb {
            return NAN;
        }
        return a;
    }
    if mb == INFINITY {
        return b;
    }
    let (sa, ea) = decode(ma);
    let (sb, eb) = decode(mb);
    if ea >= eb {
        add_ordered(na, ma, sa, ea, nb, sb, eb)
    } else {
        add_ordered(nb, mb, sb, eb, na, sa, ea)
    }
}

/// The pattern with the opposite sign.
pub fn fneg(a: u32) -> (r: u32)
    ensures
        r == negated(a),
{
    if a >= SIGN_BIT {
        a - SIGN_BIT
    } else {
        a + SIGN_BIT
    }
}

/// Subtracts the second binary32 pattern from the first.
pub fn fsub(a: u32, b: u32) -> (r: u32)
    ensures
        r == difference(a, b),
{
    fadd(a, fneg(b))
}

/// Multiplies two binary32 patterns.
pub fn fmul(a: u32, b: u32) -> (r: u32)
    ensures
        r == product(a, b),
{
    let ma: u32 = a % SIGN_BIT;
    let mb: u32 = b % SIGN_BIT;
    let negative: bool = (a >= SIGN_BIT) != (b >= SIGN_BIT);
    let sign: u32 = if negative {
        SIGN_BIT
    } else {
        0
    };
    if ma > INFINITY || mb > INFINITY {
        return NAN;
    }
    if ma == INFINITY || mb == INFINITY {
        if ma == 0 || mb == 0 {
            return NAN;
        }
        return sign + INFINITY;
    }
    let (sa, ea) = decode(ma);
    let (sb, eb) = decode(mb);
    assert(sa * sb < 0x100_0000 * 0x100_0000) by (nonlinear_arith)
        requires
            sa < 0x100_0000,
            sb < 0x100_0000,
    ;
    let m: u64 = sa * sb;
    let up: u32 = if ea + eb >= 149 {
        ea + eb - 149
    } else {
        0
    };
    let down: u32 = if ea + eb >= 149 {
        0
    } else {
        149 - (ea + eb)
    };
    proof {
        let k = pow2((ea + eb) as nat);
        lemma_pow2_pos((ea + eb) as nat);
        lemma_pow2_pos(down as nat);
        lemma_pow2_adds(ea as nat, eb as nat);
        assert(magnitude(ma as nat) * magnitude(mb as nat) == m * k) by (nonlinear_arith)
            requires
                magnitude(ma as nat) == sa * pow2(ea as nat),
                magnitude(mb as nat) == sb * pow2(eb as nat),
                m == sa * sb,
                k == pow2(ea as nat) * pow2(eb as nat),
        ;
        if ea + eb >= 149 {
            lemma_pow2_adds(up as nat, 149);
            lemma_pow2_pos(149);
            lemma2_to64();
            assert(m * k == (m * pow2(up as nat)) * pow2(149)) by (nonlinear_arith)
                requires
                    k == pow2(up as nat) * pow2(149),
            ;
            assert(1 * pow2(149) == pow2(149));
            lemma_round_ratio_scale(m as nat * pow2(up as nat), 1, pow2(149));
        } else {
            lemma_pow2_adds(down as nat, (ea + eb) as nat);
            lemma2_to64();
            assert(m as nat * pow2(up as nat) == m) by (nonlinear_arith)
                requires
                    pow2(up as nat) == 1,
            ;
            lemma_round_ratio_scale(m as nat, pow2(down as nat), k);
        }
    }
    round_pack(negative, m, up, down)
}

} // verus!
