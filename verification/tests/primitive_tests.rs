use algebra::primitive::Bits;
use algebra::primitive::RoundedDiv;
use algebra::primitive::Widening;
use algebra::primitive::div_ceil;

#[test]
fn test_carry_add_basic() {
    assert_eq!(0xffu8.carry_add(0x01, false), (0x00, true));
    assert_eq!(0xffu8.carry_add(0x00, true), (0x00, true));
    assert_eq!(0xffu8.carry_add(0xff, true), (0xff, true));
    assert_eq!(0x10u8.carry_add(0x20, true), (0x31, false));
    assert_eq!(u64::MAX.carry_add(1, false), (0, true));
    assert_eq!(u64::MAX.carry_add(u64::MAX, true), (u64::MAX, true));
}

#[test]
fn test_carry_add_matches_overflowing_add_without_carry() {
    for a in [0u8, 1, 17, 0x7f, 0x80, 0xfe, 0xff] {
        for b in [0u8, 1, 17, 0x7f, 0x80, 0xfe, 0xff] {
            assert_eq!(a.carry_add(b, false), a.overflowing_add(b));
        }
    }
}

#[test]
fn test_carry_chain_reproduces_wide_sum() {
    // two 2-limb little-endian u8 numbers: a = 0x01ff, b = 0x02ff
    let (s0, c0) = 0xffu8.carry_add(0xff, false);
    let (s1, c1) = 0x01u8.carry_add(0x02, c0);
    let total = ((s1 as u32) << 8) | s0 as u32;
    assert_eq!(total, (0x01ffu32 + 0x02ffu32) & 0xffff);
    assert_eq!(c1, 0x01ffu32 + 0x02ffu32 > 0xffff);
}

#[test]
fn test_borrow_sub_basic() {
    assert_eq!(0x00u8.borrow_sub(0x01, false), (0xff, true));
    assert_eq!(0x00u8.borrow_sub(0x00, true), (0xff, true));
    assert_eq!(0x00u8.borrow_sub(0xff, true), (0x00, true));
    assert_eq!(0x31u8.borrow_sub(0x20, true), (0x10, false));
    assert_eq!(0u64.borrow_sub(1, false), (u64::MAX, true));
}

#[test]
fn test_widen_mul_exact() {
    assert_eq!(0xffu8.widen_mul(0xff), (0x01, 0xfe));
    assert_eq!(0u8.widen_mul(0xff), (0, 0));
    assert_eq!(0xffffu16.widen_mul(0xffff), (0x0001, 0xfffe));
    for a in [0u32, 1, 0xffff, 0x1234_5678, u32::MAX] {
        for b in [0u32, 1, 0xffff, 0x9abc_def0, u32::MAX] {
            let (low, high) = a.widen_mul(b);
            assert_eq!(((high as u64) << 32) | low as u64, a as u64 * b as u64);
        }
    }
    let (low, high) = u64::MAX.widen_mul(u64::MAX);
    assert_eq!(low, 1);
    assert_eq!(high, u64::MAX - 1);
}

#[test]
fn test_carry_mul_exact() {
    for a in [0u32, 3, 0xffff, u32::MAX] {
        for b in [0u32, 7, 0x8000_0001, u32::MAX] {
            for c in [0u32, 1, u32::MAX] {
                let (low, high) = a.carry_mul(b, c);
                assert_eq!(
                    ((high as u64) << 32) | low as u64,
                    a as u64 * b as u64 + c as u64
                );
            }
        }
    }
    let (low, high) = u64::MAX.carry_mul(u64::MAX, u64::MAX);
    assert_eq!(low, 0);
    assert_eq!(high, u64::MAX);
}

#[test]
fn test_bits_constants() {
    assert_eq!(<u8 as Bits>::N_BITS, 8);
    assert_eq!(<i8 as Bits>::N_BITS, 8);
    assert_eq!(<u16 as Bits>::N_BITS, 16);
    assert_eq!(<i16 as Bits>::N_BITS, 16);
    assert_eq!(<u32 as Bits>::N_BITS, 32);
    assert_eq!(<i32 as Bits>::N_BITS, 32);
    assert_eq!(<u64 as Bits>::N_BITS, 64);
    assert_eq!(<i64 as Bits>::N_BITS, 64);
    assert_eq!(<u128 as Bits>::N_BITS, 128);
    assert_eq!(<i128 as Bits>::N_BITS, 128);
}

#[test]
fn test_div_ceil_cases() {
    assert_eq!(div_ceil(7, 2), 4);
    assert_eq!(div_ceil(8, 2), 4);
    assert_eq!(div_ceil(0, 5), 0);
    assert_eq!(div_ceil(1, 5), 1);
    assert_eq!(div_ceil(u32::MAX, 1), u32::MAX);
}

#[test]
fn test_rounded_div_unsigned_sweep() {
    for d in 0u32..=60 {
        for v in 1u32..=13 {
            let q = d.rounded_div(v);
            // nearest integer, ties toward positive infinity
            assert_eq!(q, (d + v / 2) / v);
            assert!(2 * q * v <= 2 * d + v);
            assert!(2 * d < 2 * q * v + v);
        }
    }
    assert_eq!(5u8.rounded_div(2), 3);
    assert_eq!(5u16.rounded_div(3), 2);
    assert_eq!(100u64.rounded_div(8), 13);
    assert_eq!(100u128.rounded_div(200), 1);
    assert_eq!(99usize.rounded_div(200), 0);
}

#[test]
fn test_rounded_div_signed_sweep() {
    for d in -60i32..=60 {
        for v in -13i32..=13 {
            if v == 0 {
                continue;
            }
            let q = d.rounded_div(v);
            let expected = if (d ^ v) >= 0 {
                (d + v / 2) / v
            } else {
                (d - v / 2) / v
            };
            assert_eq!(q, expected, "d={} v={}", d, v);
        }
    }
    assert_eq!(5i8.rounded_div(2), 3);
    assert_eq!((-5i8).rounded_div(2), -3);
    assert_eq!(5i16.rounded_div(-2), -3);
    assert_eq!((-5i64).rounded_div(-2), 3);
    assert_eq!((-7i128).rounded_div(2), -4);
    assert_eq!((7isize).rounded_div(-2), -4);
}

#[test]
fn test_rounded_div_wide_and_edges() {
    assert_eq!(i128::MIN.rounded_div(1), i128::MIN);
    assert_eq!((i128::MIN + 1).rounded_div(2), i128::MIN / 2);
    assert_eq!((u128::MAX / 2).rounded_div(u128::MAX), 0);
    assert_eq!((i64::MAX / 2).rounded_div(i64::MAX), 0);
    assert_eq!(5i64.rounded_div(-1), -5);
    assert_eq!((-3i32).rounded_div(-1), 3);
}

#[test]
fn test_carry_add_chain_four_limbs() {
    // 4-limb little-endian u32 numbers against a u128 reference sum
    let a = [0xffff_ffffu32, 0x0123_4567, 0x89ab_cdef, 0xffff_ffff];
    let b = [0x0000_0001u32, 0xfedc_ba98, 0x7654_3210, 0x0000_0000];
    let mut out = [0u32; 4];
    let mut carry = false;
    for i in 0..4 {
        let (s, c) = a[i].carry_add(b[i], carry);
        out[i] = s;
        carry = c;
    }
    let val = |l: [u32; 4]| -> u128 {
        (l[0] as u128) | (l[1] as u128) << 32 | (l[2] as u128) << 64 | (l[3] as u128) << 96
    };
    let true_sum = val(a).wrapping_add(val(b));
    assert_eq!(val(out), true_sum);
    assert_eq!(carry, val(a).checked_add(val(b)).is_none());
}

#[test]
fn test_carry_mul_chain_schoolbook() {
    // 3-limb little-endian u32 number times one u32 limb, against a u128
    // reference product
    let a = [0x89ab_cdefu32, 0x0123_4567, 0xffff_0000];
    let b = 0xdead_beefu32;
    let mut out = [0u32; 4];
    let mut carry = 0u32;
    for i in 0..3 {
        let (lo, hi) = a[i].carry_mul(b, carry);
        out[i] = lo;
        carry = hi;
    }
    out[3] = carry;
    let a_val = (a[0] as u128) | (a[1] as u128) << 32 | (a[2] as u128) << 64;
    let product = a_val * b as u128;
    let out_val = (out[0] as u128) | (out[1] as u128) << 32 | (out[2] as u128) << 64
        | (out[3] as u128) << 96;
    assert_eq!(out_val, product);
}
