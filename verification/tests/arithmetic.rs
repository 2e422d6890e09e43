use linrustgebra::arith::{fadd, fmul, fneg, fsub};
use linrustgebra::compare::{feq, flt};
use linrustgebra::root::fsqrt;

/// A small deterministic generator of bit patterns that visits zeros,
/// subnormals, infinities and NaNs often.
fn patterns(count: usize, seed: u64) -> Vec<u32> {
    let special: [u32; 16] = [
        0x0000_0000, 0x8000_0000, 0x0000_0001, 0x8000_0001, 0x007f_ffff, 0x0080_0000,
        0x00ff_ffff, 0x3f80_0000, 0xbf80_0000, 0x7f7f_ffff, 0xff7f_ffff, 0x7f80_0000,
        0xff80_0000, 0x7fc0_0000, 0x3f00_0000, 0x4000_0000,
    ];
    let mut state = seed;
    let mut out = Vec::with_capacity(count);
    for i in 0..count {
        state = state.wrapping_mul(6364136223846793005).wrapping_add(1442695040888963407);
        let word = (state >> 32) as u32;
        out.push(match i % 4 {
            0 => special[(word % 16) as usize],
            1 => word & 0x80ff_ffff,
            _ => word,
        });
    }
    out
}

fn same(ours: u32, theirs: f32) -> bool {
    if theirs.is_nan() {
        f32::from_bits(ours).is_nan()
    } else {
        ours == theirs.to_bits()
    }
}

#[test]
fn product_agrees_with_hardware() {
    let xs = patterns(3000, 1);
    let ys = patterns(3000, 2);
    for &a in &xs {
        for &b in ys.iter().take(300) {
            let expected = f32::from_bits(a) * f32::from_bits(b);
            assert!(same(fmul(a, b), expected), "{a:#x} * {b:#x}");
        }
    }
}

#[test]
fn sum_agrees_with_hardware() {
    let xs = patterns(3000, 3);
    let ys = patterns(3000, 4);
    for &a in &xs {
        for &b in ys.iter().take(300) {
            let expected = f32::from_bits(a) + f32::from_bits(b);
            assert!(same(fadd(a, b), expected), "{a:#x} + {b:#x}");
        }
    }
}

#[test]
fn sum_of_close_values_agrees_with_hardware() {
    let xs = patterns(20000, 5);
    for &a in &xs {
        for delta in 0..40u32 {
            for flip in [0u32, 0x8000_0000] {
                let b = a.wrapping_add(delta << 19) ^ flip;
                let expected = f32::from_bits(a) + f32::from_bits(b);
                assert!(same(fadd(a, b), expected), "{a:#x} + {b:#x}");
                let c = (a ^ flip).wrapping_sub(delta.wrapping_mul(0x0080_0001));
                let expected = f32::from_bits(a) + f32::from_bits(c);
                assert!(same(fadd(a, c), expected), "{a:#x} + {c:#x}");
            }
        }
    }
}

#[test]
fn difference_agrees_with_hardware() {
    let xs = patterns(3000, 6);
    let ys = patterns(3000, 7);
    for &a in &xs {
        for &b in ys.iter().take(300) {
            let expected = f32::from_bits(a) - f32::from_bits(b);
            assert!(same(fsub(a, b), expected), "{a:#x} - {b:#x}");
        }
    }
}

#[test]
fn root_agrees_with_hardware() {
    for &a in &patterns(400_000, 8) {
        let expected = f32::from_bits(a).sqrt();
        assert!(same(fsqrt(a), expected), "sqrt {a:#x}");
    }
    for a in 0..0x0040_0000u32 {
        let a = a.wrapping_mul(0x1fd);
        let expected = f32::from_bits(a).sqrt();
        assert!(same(fsqrt(a), expected), "sqrt {a:#x}");
    }
}

#[test]
fn comparisons_agree_with_hardware() {
    let xs = patterns(2000, 9);
    for &a in &xs {
        for &b in xs.iter().take(400) {
            assert_eq!(feq(a, b), f32::from_bits(a) == f32::from_bits(b), "{a:#x} == {b:#x}");
            assert_eq!(flt(a, b), f32::from_bits(a) < f32::from_bits(b), "{a:#x} < {b:#x}");
        }
    }
}

#[test]
fn negation_flips_the_sign_only() {
    for &a in &patterns(2000, 10) {
        assert_eq!(fneg(a), a ^ 0x8000_0000);
        assert_eq!(fneg(fneg(a)), a);
    }
}

#[test]
fn ties_go_to_the_even_significand() {
    let one = 1f32.to_bits();
    let half_ulp = f32::from_bits(0x3380_0000); // 2^-24
    assert_eq!(fadd(one, half_ulp.to_bits()), one);
    assert_eq!(fadd(one + 1, half_ulp.to_bits()), one + 2);
    assert_eq!(fadd(one, (half_ulp * 1.5).to_bits()), one + 1);
    // the largest finite value and half a unit in its last place
    assert_eq!(fadd(0x7f7f_ffff, 0x7300_0000), 0x7f80_0000);
    assert_eq!(fadd(0x7f7f_ffff, 0x72ff_ffff), 0x7f7f_ffff);
}

#[test]
fn exact_values_of_each_operation() {
    assert_eq!(fadd(0.1f32.to_bits(), 0.2f32.to_bits()), 0x3e99_999a);
    assert_eq!(fsub(1f32.to_bits(), 0.9f32.to_bits()), 0x3dcc_ccd0);
    assert_eq!(fmul(0.1f32.to_bits(), 0.1f32.to_bits()), 0x3c23_d70b);
    assert_eq!(fsqrt(2f32.to_bits()), 0x3fb5_04f3);
    assert_eq!(fsqrt(35f32.to_bits()), 0x40bd_5087);
    assert_eq!(fsqrt(10f32.to_bits()), 0x404a_62c2);
    assert_eq!(fsqrt(4f32.to_bits()), 2f32.to_bits());
    assert_eq!(fmul(1.5f32.to_bits(), (-2f32).to_bits()), (-3f32).to_bits());
}

#[test]
fn zeros_keep_their_signs() {
    let zero = 0u32;
    let neg_zero = 0x8000_0000u32;
    assert_eq!(fadd(zero, neg_zero), zero);
    assert_eq!(fadd(neg_zero, neg_zero), neg_zero);
    assert_eq!(fadd(1f32.to_bits(), (-1f32).to_bits()), zero);
    assert_eq!(fsub(neg_zero, zero), neg_zero);
    assert_eq!(fmul(neg_zero, 2f32.to_bits()), neg_zero);
    assert_eq!(fmul(neg_zero, (-2f32).to_bits()), zero);
    assert_eq!(fsqrt(neg_zero), neg_zero);
    assert_eq!(fsqrt(zero), zero);
    // a product too small for the format is a zero with the sign of the product
    assert_eq!(fmul(0x0000_0001, 0x8000_0001), neg_zero);
}

#[test]
fn invalid_operations_give_nan() {
    let inf = f32::INFINITY.to_bits();
    let neg_inf = f32::NEG_INFINITY.to_bits();
    for r in [fadd(inf, neg_inf), fsub(inf, inf), fmul(inf, 0), fmul(0x8000_0000, neg_inf)] {
        assert!(f32::from_bits(r).is_nan());
    }
    assert!(f32::from_bits(fsqrt((-1f32).to_bits())).is_nan());
    assert!(f32::from_bits(fsqrt(neg_inf)).is_nan());
    assert_eq!(fsqrt(inf), inf);
    assert_eq!(fadd(inf, inf), inf);
    assert_eq!(fmul(neg_inf, 2f32.to_bits()), neg_inf);
}
