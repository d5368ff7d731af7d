use vstd::prelude::*;

verus! {

/// Carry-propagating and widening arithmetic for chaining fixed-width words
/// into multi-limb ("big number") addition, subtraction and multiplication.
///
/// Each operation is exact modular arithmetic on `W`-bit words: the
/// postconditions pin the outputs as the unique decomposition of the true
/// mathematical result into a word below `modulus()` and a carry, borrow or
/// high word.
pub trait Widening: Sized {
    /// A wider type used as the intermediate for multiplication.
    type WideT;

    /// The value of the word as a mathematical integer.
    spec fn as_int(self) -> int;

    /// One more than the largest representable word: `2^W`.
    spec fn modulus() -> int;

    /// Every word lies in `[0, modulus())`, and the modulus is nontrivial.
    proof fn lemma_value_bounds(self)
        ensures
            1 < Self::modulus(),
            0 <= self.as_int() < Self::modulus(),
    ;

    /// Computes `self + rhs + carry` modulo `2^W`; the returned flag is true
    /// iff the true sum exceeds the representable range.
    fn carry_add(self, rhs: Self, carry: bool) -> (r: (Self, bool))
        ensures
            r.0.as_int() + (if r.1 {
                Self::modulus()
            } else {
                0int
            }) == self.as_int() + rhs.as_int() + (if carry {
                1int
            } else {
                0int
            }),
    ;

    /// Computes `self - rhs - borrow` modulo `2^W`; the returned flag is true
    /// iff the true difference is negative.
    fn borrow_sub(self, rhs: Self, borrow: bool) -> (r: (Self, bool))
        ensures
            r.0.as_int() - (if r.1 {
                Self::modulus()
            } else {
                0int
            }) == self.as_int() - rhs.as_int() - (if borrow {
                1int
            } else {
                0int
            }),
    ;

    /// Computes the exact product `self * rhs` as a `(low, high)` pair:
    /// `high * 2^W + low == self * rhs` over unbounded integers.
    fn widen_mul(self, rhs: Self) -> (r: (Self, Self))
        ensures
            r.1.as_int() * Self::modulus() + r.0.as_int() == self.as_int() * rhs.as_int(),
    ;

    /// Computes `self * rhs + carry` exactly as a `(low, high)` pair:
    /// `high * 2^W + low == self * rhs + carry` over unbounded integers.
    fn carry_mul(self, rhs: Self, carry: Self) -> (r: (Self, Self))
        ensures
            r.1.as_int() * Self::modulus() + r.0.as_int() == self.as_int() * rhs.as_int()
                + carry.as_int(),
    ;
}

impl Widening for u8 {
    type WideT = u16;

    open spec fn as_int(self) -> int {
        self as int
    }

    open spec fn modulus() -> int {
        0x100
    }

    proof fn lemma_value_bounds(self) {
    }

    fn carry_add(self, rhs: u8, carry: bool) -> (r: (u8, bool)) {
        let c: u16 = if carry {
            1
        } else {
            0
        };
        let wide: u16 = self as u16 + rhs as u16 + c;
        ((wide % 0x100) as u8, wide >= 0x100)
    }

    fn borrow_sub(self, rhs: u8, borrow: bool) -> (r: (u8, bool)) {
        let b: u16 = if borrow {
            1
        } else {
            0
        };
        let wide: u16 = 0x100 + self as u16 - rhs as u16 - b;
        ((wide % 0x100) as u8, wide < 0x100)
    }

    fn widen_mul(self, rhs: u8) -> (r: (u8, u8)) {
        proof {
            assert((self as int) * (rhs as int) < 0x10000) by (nonlinear_arith)
                requires
                    (self as int) < 0x100,
                    (rhs as int) < 0x100;
        }
        let wide: u16 = (self as u16) * (rhs as u16);
        ((wide % 0x100) as u8, (wide / 0x100) as u8)
    }

    fn carry_mul(self, rhs: u8, carry: u8) -> (r: (u8, u8)) {
        proof {
            assert((self as int) * (rhs as int) <= 0xff * 0xff) by (nonlinear_arith)
                requires
                    (self as int) <= 0xff,
                    (rhs as int) <= 0xff;
        }
        let wide: u16 = (self as u16) * (rhs as u16) + carry as u16;
        ((wide % 0x100) as u8, (wide / 0x100) as u8)
    }
}

impl Widening for u16 {
    type WideT = u32;

    open spec fn as_int(self) -> int {
        self as int
    }

    open spec fn modulus() -> int {
        0x10000
    }

    proof fn lemma_value_bounds(self) {
    }

    fn carry_add(self, rhs: u16, carry: bool) -> (r: (u16, bool)) {
        let c: u32 = if carry {
            1
        } else {
            0
        };
        let wide: u32 = self as u32 + rhs as u32 + c;
        ((wide % 0x10000) as u16, wide >= 0x10000)
    }

    fn borrow_sub(self, rhs: u16, borrow: bool) -> (r: (u16, bool)) {
        let b: u32 = if borrow {
            1
        } else {
            0
        };
        let wide: u32 = 0x10000 + self as u32 - rhs as u32 - b;
        ((wide % 0x10000) as u16, wide < 0x10000)
    }

    fn widen_mul(self, rhs: u16) -> (r: (u16, u16)) {
        proof {
            assert((self as int) * (rhs as int) < 0x1_0000_0000) by (nonlinear_arith)
                requires
                    (self as int) < 0x10000,
                    (rhs as int) < 0x10000;
        }
        let wide: u32 = (self as u32) * (rhs as u32);
        ((wide % 0x10000) as u16, (wide / 0x10000) as u16)
    }

    fn carry_mul(self, rhs: u16, carry: u16) -> (r: (u16, u16)) {
        proof {
            assert((self as int) * (rhs as int) <= 0xffff * 0xffff) by (nonlinear_arith)
                requires
                    (self as int) <= 0xffff,
                    (rhs as int) <= 0xffff;
        }
        let wide: u32 = (self as u32) * (rhs as u32) + carry as u32;
        ((wide % 0x10000) as u16, (wide / 0x10000) as u16)
    }
}

impl Widening for u32 {
    type WideT = u64;

    open spec fn as_int(self) -> int {
        self as int
    }

    open spec fn modulus() -> int {
        0x1_0000_0000
    }

    proof fn lemma_value_bounds(self) {
    }

    fn carry_add(self, rhs: u32, carry: bool) -> (r: (u32, bool)) {
        let c: u64 = if carry {
            1
        } else {
            0
        };
        let wide: u64 = self as u64 + rhs as u64 + c;
        ((wide % 0x1_0000_0000) as u32, wide >= 0x1_0000_0000)
    }

    fn borrow_sub(self, rhs: u32, borrow: bool) -> (r: (u32, bool)) {
        let b: u64 = if borrow {
            1
        } else {
            0
        };
        let wide: u64 = 0x1_0000_0000 + self as u64 - rhs as u64 - b;
        ((wide % 0x1_0000_0000) as u32, wide < 0x1_0000_0000)
    }

    fn widen_mul(self, rhs: u32) -> (r: (u32, u32)) {
        proof {
            assert((self as int) * (rhs as int) < 0x1_0000_0000_0000_0000) by (nonlinear_arith)
                requires
                    (self as int) < 0x1_0000_0000,
                    (rhs as int) < 0x1_0000_0000;
        }
        let wide: u64 = (self as u64) * (rhs as u64);
        ((wide % 0x1_0000_0000) as u32, (wide / 0x1_0000_0000) as u32)
    }

    fn carry_mul(self, rhs: u32, carry: u32) -> (r: (u32, u32)) {
        proof {
            assert((self as int) * (rhs as int) <= 0xffff_ffff * 0xffff_ffff) by (nonlinear_arith)
                requires
                    (self as int) <= 0xffff_ffff,
                    (rhs as int) <= 0xffff_ffff;
        }
        let wide: u64 = (self as u64) * (rhs as u64) + carry as u64;
        ((wide % 0x1_0000_0000) as u32, (wide / 0x1_0000_0000) as u32)
    }
}

impl Widening for u64 {
    type WideT = u128;

    open spec fn as_int(self) -> int {
        self as int
    }

    open spec fn modulus() -> int {
        0x1_0000_0000_0000_0000
    }

    proof fn lemma_value_bounds(self) {
    }

    fn carry_add(self, rhs: u64, carry: bool) -> (r: (u64, bool)) {
        let c: u128 = if carry {
            1
        } else {
            0
        };
        let wide: u128 = self as u128 + rhs as u128 + c;
        ((wide % 0x1_0000_0000_0000_0000) as u64, wide >= 0x1_0000_0000_0000_0000)
    }

    fn borrow_sub(self, rhs: u64, borrow: bool) -> (r: (u64, bool)) {
        let b: u128 = if borrow {
            1
        } else {
            0
        };
        let wide: u128 = 0x1_0000_0000_0000_0000 + self as u128 - rhs as u128 - b;
        ((wide % 0x1_0000_0000_0000_0000) as u64, wide < 0x1_0000_0000_0000_0000)
    }

    fn widen_mul(self, rhs: u64) -> (r: (u64, u64)) {
        proof {
            assert((self as int) * (rhs as int) <= 0xffff_ffff_ffff_ffff * 0xffff_ffff_ffff_ffff)
                by (nonlinear_arith)
                requires
                    (self as int) <= 0xffff_ffff_ffff_ffff,
                    (rhs as int) <= 0xffff_ffff_ffff_ffff;
        }
        let wide: u128 = (self as u128) * (rhs as u128);
        ((wide % 0x1_0000_0000_0000_0000) as u64, (wide / 0x1_0000_0000_0000_0000) as u64)
    }

    fn carry_mul(self, rhs: u64, carry: u64) -> (r: (u64, u64)) {
        proof {
            assert((self as int) * (rhs as int) <= 0xffff_ffff_ffff_ffff * 0xffff_ffff_ffff_ffff)
                by (nonlinear_arith)
                requires
                    (self as int) <= 0xffff_ffff_ffff_ffff,
                    (rhs as int) <= 0xffff_ffff_ffff_ffff;
        }
        let wide: u128 = (self as u128) * (rhs as u128) + carry as u128;
        ((wide % 0x1_0000_0000_0000_0000) as u64, (wide / 0x1_0000_0000_0000_0000) as u64)
    }
}

/// Access to the bit count of an integer type.
pub trait Bits {
    /// The number of bits this type has.
    const N_BITS: u32;
}

impl Bits for i8 {
    const N_BITS: u32 = 8;
}

impl Bits for u8 {
    const N_BITS: u32 = 8;
}

impl Bits for i16 {
    const N_BITS: u32 = 16;
}

impl Bits for u16 {
    const N_BITS: u32 = 16;
}

impl Bits for i32 {
    const N_BITS: u32 = 32;
}

impl Bits for u32 {
    const N_BITS: u32 = 32;
}

impl Bits for i64 {
    const N_BITS: u32 = 64;
}

impl Bits for u64 {
    const N_BITS: u32 = 64;
}

impl Bits for isize {
    const N_BITS: u32 = isize::BITS;
}

impl Bits for usize {
    const N_BITS: u32 = usize::BITS;
}

impl Bits for i128 {
    const N_BITS: u32 = 128;
}

impl Bits for u128 {
    const N_BITS: u32 = 128;
}

/// `lhs / rhs` rounded towards positive infinity.
pub open spec fn div_ceil_spec(lhs: int, rhs: int) -> int {
    lhs / rhs + (if lhs % rhs != 0 {
        1int
    } else {
        0int
    })
}

/// Calculates the quotient of `lhs` and `rhs`, rounding the result towards
/// positive infinity. The divisor must be nonzero.
pub fn div_ceil(lhs: u32, rhs: u32) -> (r: u32)
    requires
        rhs != 0,
    ensures
        r == div_ceil_spec(lhs as int, rhs as int),
{
    let d = lhs / rhs;
    let r = lhs % rhs;
    if r > 0 {
        proof {
            assert(rhs != 1) by {
                if rhs == 1 {
                    assert(lhs as int % 1int == 0);
                }
            };
            assert(lhs as int / rhs as int <= lhs as int / 2) by {
                vstd::arithmetic::div_mod::lemma_div_is_ordered_by_denominator(
                    lhs as int,
                    2,
                    rhs as int,
                );
            };
        }
        d + 1
    } else {
        d
    }
}

} // verus!

verus! {

/// Truncating (round-toward-zero) integer division: the quotient the
/// machine's `/` operator computes on signed operands, written over
/// magnitudes so that every spec-level division has nonnegative operands.
pub open spec fn tdiv(a: int, b: int) -> int {
    if (a >= 0) == (b >= 0) {
        (vstd::math::abs(a) / vstd::math::abs(b)) as int
    } else {
        -((vstd::math::abs(a) / vstd::math::abs(b)) as int)
    }
}

/// Rounded division of nonnegative operands: `(d + v/2) / v`, so that ties
/// round toward positive infinity.
pub open spec fn rounded_div_uint_spec(d: int, v: int) -> int {
    (d + v / 2) / v
}

/// The numerator the signed rounded division divides by `v`: the dividend
/// moved half a divisor away from zero when the signs agree, and toward
/// zero when they differ.
pub open spec fn rounded_div_numerator(d: int, v: int) -> int {
    if (d >= 0) == (v >= 0) {
        d + tdiv(v, 2)
    } else {
        d - tdiv(v, 2)
    }
}

/// Rounded signed division: round half away from zero, built from
/// truncating division.
pub open spec fn rounded_div_int_spec(d: int, v: int) -> int {
    tdiv(rounded_div_numerator(d, v), v)
}

/// Get rounded result of an integer division.
pub trait RoundedDiv<Rhs = Self> {
    /// Type of the rounded result.
    type Output;

    /// When the division is defined: the divisor is nonzero and no
    /// intermediate value leaves the type's range.
    spec fn rounded_div_req(self, rhs: Rhs) -> bool;

    /// The rounded quotient the operation returns.
    spec fn rounded_div_spec(self, rhs: Rhs) -> Self::Output;

    /// Get rounded result of an integer division.
    fn rounded_div(self, rhs: Rhs) -> (r: Self::Output)
        requires
            self.rounded_div_req(rhs),
        ensures
            r == self.rounded_div_spec(rhs),
    ;
}

impl RoundedDiv for u8 {
    type Output = u8;

    open spec fn rounded_div_req(self, rhs: u8) -> bool {
        rhs != 0 && self + rhs / 2 <= u8::MAX
    }

    open spec fn rounded_div_spec(self, rhs: u8) -> u8 {
        rounded_div_uint_spec(self as int, rhs as int) as u8
    }

    fn rounded_div(self, rhs: u8) -> (r: u8) {
        (self + rhs / 2) / rhs
    }
}

impl RoundedDiv for u16 {
    type Output = u16;

    open spec fn rounded_div_req(self, rhs: u16) -> bool {
        rhs != 0 && self + rhs / 2 <= u16::MAX
    }

    open spec fn rounded_div_spec(self, rhs: u16) -> u16 {
        rounded_div_uint_spec(self as int, rhs as int) as u16
    }

    fn rounded_div(self, rhs: u16) -> (r: u16) {
        (self + rhs / 2) / rhs
    }
}

impl RoundedDiv for u32 {
    type Output = u32;

    open spec fn rounded_div_req(self, rhs: u32) -> bool {
        rhs != 0 && self + rhs / 2 <= u32::MAX
    }

    open spec fn rounded_div_spec(self, rhs: u32) -> u32 {
        rounded_div_uint_spec(self as int, rhs as int) as u32
    }

    fn rounded_div(self, rhs: u32) -> (r: u32) {
        (self + rhs / 2) / rhs
    }
}

impl RoundedDiv for u64 {
    type Output = u64;

    open spec fn rounded_div_req(self, rhs: u64) -> bool {
        rhs != 0 && self + rhs / 2 <= u64::MAX
    }

    open spec fn rounded_div_spec(self, rhs: u64) -> u64 {
        rounded_div_uint_spec(self as int, rhs as int) as u64
    }

    fn rounded_div(self, rhs: u64) -> (r: u64) {
        (self + rhs / 2) / rhs
    }
}

impl RoundedDiv for u128 {
    type Output = u128;

    open spec fn rounded_div_req(self, rhs: u128) -> bool {
        rhs != 0 && self + rhs / 2 <= u128::MAX
    }

    open spec fn rounded_div_spec(self, rhs: u128) -> u128 {
        rounded_div_uint_spec(self as int, rhs as int) as u128
    }

    fn rounded_div(self, rhs: u128) -> (r: u128) {
        (self + rhs / 2) / rhs
    }
}

impl RoundedDiv for usize {
    type Output = usize;

    open spec fn rounded_div_req(self, rhs: usize) -> bool {
        rhs != 0 && self + rhs / 2 <= usize::MAX
    }

    open spec fn rounded_div_spec(self, rhs: usize) -> usize {
        rounded_div_uint_spec(self as int, rhs as int) as usize
    }

    fn rounded_div(self, rhs: usize) -> (r: usize) {
        (self + rhs / 2) / rhs
    }
}

impl RoundedDiv for i8 {
    type Output = i8;

    open spec fn rounded_div_req(self, rhs: i8) -> bool {
        rhs != 0 && i8::MIN <= rounded_div_numerator(self as int, rhs as int) <= i8::MAX && !(
        rounded_div_numerator(self as int, rhs as int) == i8::MIN && rhs == -1)
    }

    open spec fn rounded_div_spec(self, rhs: i8) -> i8 {
        rounded_div_int_spec(self as int, rhs as int) as i8
    }

    fn rounded_div(self, rhs: i8) -> (r: i8) {
        let d: i64 = self as i64;
        let v: i64 = rhs as i64;
        let va: i64 = if v >= 0 {
            v
        } else {
            -v
        };
        let h: i64 = va / 2;
        let sh: i64 = if v >= 0 {
            h
        } else {
            -h
        };
        let n: i64 = if (d >= 0) == (v >= 0) {
            d + sh
        } else {
            d - sh
        };
        let na: i64 = if n >= 0 {
            n
        } else {
            -n
        };
        let qq: i64 = na / va;
        let q: i64 = if (n >= 0) == (v >= 0) {
            qq
        } else {
            -qq
        };
        proof {
            assert(sh as int == tdiv(rhs as int, 2));
            assert(n as int == rounded_div_numerator(self as int, rhs as int));
            assert(q as int == rounded_div_int_spec(self as int, rhs as int));
        }
        q as i8
    }
}

impl RoundedDiv for i16 {
    type Output = i16;

    open spec fn rounded_div_req(self, rhs: i16) -> bool {
        rhs != 0 && i16::MIN <= rounded_div_numerator(self as int, rhs as int) <= i16::MAX && !(
        rounded_div_numerator(self as int, rhs as int) == i16::MIN && rhs == -1)
    }

    open spec fn rounded_div_spec(self, rhs: i16) -> i16 {
        rounded_div_int_spec(self as int, rhs as int) as i16
    }

    fn rounded_div(self, rhs: i16) -> (r: i16) {
        let d: i64 = self as i64;
        let v: i64 = rhs as i64;
        let va: i64 = if v >= 0 {
            v
        } else {
            -v
        };
        let h: i64 = va / 2;
        let sh: i64 = if v >= 0 {
            h
        } else {
            -h
        };
        let n: i64 = if (d >= 0) == (v >= 0) {
            d + sh
        } else {
            d - sh
        };
        let na: i64 = if n >= 0 {
            n
        } else {
            -n
        };
        let qq: i64 = na / va;
        let q: i64 = if (n >= 0) == (v >= 0) {
            qq
        } else {
            -qq
        };
        proof {
            assert(sh as int == tdiv(rhs as int, 2));
            assert(n as int == rounded_div_numerator(self as int, rhs as int));
            assert(q as int == rounded_div_int_spec(self as int, rhs as int));
        }
        q as i16
    }
}

impl RoundedDiv for i32 {
    type Output = i32;

    open spec fn rounded_div_req(self, rhs: i32) -> bool {
        rhs != 0 && i32::MIN <= rounded_div_numerator(self as int, rhs as int) <= i32::MAX && !(
        rounded_div_numerator(self as int, rhs as int) == i32::MIN && rhs == -1)
    }

    open spec fn rounded_div_spec(self, rhs: i32) -> i32 {
        rounded_div_int_spec(self as int, rhs as int) as i32
    }

    fn rounded_div(self, rhs: i32) -> (r: i32) {
        let d: i64 = self as i64;
        let v: i64 = rhs as i64;
        let va: i64 = if v >= 0 {
            v
        } else {
            -v
        };
        let h: i64 = va / 2;
        let sh: i64 = if v >= 0 {
            h
        } else {
            -h
        };
        let n: i64 = if (d >= 0) == (v >= 0) {
            d + sh
        } else {
            d - sh
        };
        let na: i64 = if n >= 0 {
            n
        } else {
            -n
        };
        let qq: i64 = na / va;
        let q: i64 = if (n >= 0) == (v >= 0) {
            qq
        } else {
            -qq
        };
        proof {
            assert(sh as int == tdiv(rhs as int, 2));
            assert(n as int == rounded_div_numerator(self as int, rhs as int));
            assert(q as int == rounded_div_int_spec(self as int, rhs as int));
        }
        q as i32
    }
}

impl RoundedDiv for i64 {
    type Output = i64;

    open spec fn rounded_div_req(self, rhs: i64) -> bool {
        rhs != 0 && i64::MIN <= rounded_div_numerator(self as int, rhs as int) <= i64::MAX && !(
        rounded_div_numerator(self as int, rhs as int) == i64::MIN && rhs == -1)
    }

    open spec fn rounded_div_spec(self, rhs: i64) -> i64 {
        rounded_div_int_spec(self as int, rhs as int) as i64
    }

    fn rounded_div(self, rhs: i64) -> (r: i64) {
        let d: i128 = self as i128;
        let v: i128 = rhs as i128;
        let va: i128 = if v >= 0 {
            v
        } else {
            -v
        };
        let h: i128 = va / 2;
        let sh: i128 = if v >= 0 {
            h
        } else {
            -h
        };
        let n: i128 = if (d >= 0) == (v >= 0) {
            d + sh
        } else {
            d - sh
        };
        let na: i128 = if n >= 0 {
            n
        } else {
            -n
        };
        let qq: i128 = na / va;
        let q: i128 = if (n >= 0) == (v >= 0) {
            qq
        } else {
            -qq
        };
        proof {
            assert(sh as int == tdiv(rhs as int, 2));
            assert(n as int == rounded_div_numerator(self as int, rhs as int));
            assert(q as int == rounded_div_int_spec(self as int, rhs as int));
        }
        q as i64
    }
}

impl RoundedDiv for isize {
    type Output = isize;

    open spec fn rounded_div_req(self, rhs: isize) -> bool {
        rhs != 0 && isize::MIN <= rounded_div_numerator(self as int, rhs as int) <= isize::MAX && !(
        rounded_div_numerator(self as int, rhs as int) == isize::MIN && rhs == -1)
    }

    open spec fn rounded_div_spec(self, rhs: isize) -> isize {
        rounded_div_int_spec(self as int, rhs as int) as isize
    }

    fn rounded_div(self, rhs: isize) -> (r: isize) {
        let d: i128 = self as i128;
        let v: i128 = rhs as i128;
        let va: i128 = if v >= 0 {
            v
        } else {
            -v
        };
        let h: i128 = va / 2;
        let sh: i128 = if v >= 0 {
            h
        } else {
            -h
        };
        let n: i128 = if (d >= 0) == (v >= 0) {
            d + sh
        } else {
            d - sh
        };
        let na: i128 = if n >= 0 {
            n
        } else {
            -n
        };
        let qq: i128 = na / va;
        let q: i128 = if (n >= 0) == (v >= 0) {
            qq
        } else {
            -qq
        };
        proof {
            assert(sh as int == tdiv(rhs as int, 2));
            assert(n as int == rounded_div_numerator(self as int, rhs as int));
            assert(q as int == rounded_div_int_spec(self as int, rhs as int));
        }
        q as isize
    }
}

} // verus!

verus! {

impl RoundedDiv for i128 {
    type Output = i128;

    open spec fn rounded_div_req(self, rhs: i128) -> bool {
        rhs != 0 && i128::MIN <= rounded_div_numerator(self as int, rhs as int) <= i128::MAX && !(
        rounded_div_numerator(self as int, rhs as int) == i128::MIN && rhs == -1)
    }

    open spec fn rounded_div_spec(self, rhs: i128) -> i128 {
        rounded_div_int_spec(self as int, rhs as int) as i128
    }

    fn rounded_div(self, rhs: i128) -> (r: i128) {
        let da: u128 = if self >= 0 {
            self as u128
        } else {
            ((-1 - self) as u128) + 1
        };
        let va: u128 = if rhs >= 0 {
            rhs as u128
        } else {
            ((-1 - rhs) as u128) + 1
        };
        let h: u128 = va / 2;
        let na: u128 = da + h;
        let qq: u128 = na / va;
        proof {
            assert(da as int == vstd::math::abs(self as int));
            assert(va as int == vstd::math::abs(rhs as int));
            assert(na as int == vstd::math::abs(
                rounded_div_numerator(self as int, rhs as int),
            ));
            vstd::arithmetic::div_mod::lemma_div_nonincreasing(na as int, va as int);
        }
        if (self >= 0) == (rhs >= 0) {
            proof {
                assert(qq as int == rounded_div_int_spec(self as int, rhs as int));
            }
            qq as i128
        } else {
            let q: i128 = if qq == 0 {
                0
            } else {
                -1 - ((qq - 1) as i128)
            };
            proof {
                assert(q as int == rounded_div_int_spec(self as int, rhs as int));
            }
            q
        }
    }
}

} // verus!

verus! {

/// Every entry of `s` is a word below the modulus `m`.
pub open spec fn limbs_wf(m: int, s: Seq<int>) -> bool {
    forall|i: int| 0 <= i < s.len() ==> 0 <= #[trigger] s[i] < m
}

/// The big integer a little-endian limb sequence stands for, base `m`.
pub open spec fn le_value(m: int, s: Seq<int>) -> int
    decreases s.len(),
{
    if s.len() == 0 {
        0
    } else {
        s[0] + m * le_value(m, s.subrange(1, s.len() as int))
    }
}

/// The limb-by-limb addition chain: each step adds two limbs and the carry
/// in, keeps the sum modulo `m`, and passes the overflow on as the next
/// carry, exactly as `carry_add` does.
pub open spec fn chain_add(m: int, a: Seq<int>, b: Seq<int>, c: bool) -> (Seq<int>, bool)
    decreases a.len(),
{
    if a.len() == 0 {
        (Seq::<int>::empty(), c)
    } else {
        let t = a[0] + b[0] + (if c {
            1int
        } else {
            0int
        });
        let rest = chain_add(
            m,
            a.subrange(1, a.len() as int),
            b.subrange(1, b.len() as int),
            t >= m,
        );
        (seq![t % m].add(rest.0), rest.1)
    }
}

/// A sum decomposed into a word below `m` and an overflow flag is the word's
/// remainder and quotient by `m`: the pair `carry_add` returns is the unique
/// one, and the flag is set exactly when the true sum leaves the range.
pub proof fn lemma_carry_decomposition(m: int, t: int, low: int, c: bool)
    requires
        1 < m,
        0 <= low < m,
        low + (if c {
            m
        } else {
            0int
        }) == t,
    ensures
        low == t % m,
        c == (t >= m),
{
    if c {
        vstd::arithmetic::div_mod::lemma_mod_add_multiples_vanish(low, m);
        vstd::arithmetic::div_mod::lemma_small_mod(low as nat, m as nat);
    } else {
        vstd::arithmetic::div_mod::lemma_small_mod(low as nat, m as nat);
    }
}

/// Carry-chain correctness: adding two little-endian limb sequences with
/// `carry_add`'s step, least-significant limb first, yields exactly the sum
/// of the two big integers modulo `m^k`, and the final carry-out is set iff
/// the true sum exceeds `m^k - 1`.
pub proof fn lemma_carry_add_chain(m: int, a: Seq<int>, b: Seq<int>, c: bool)
    requires
        1 < m,
        a.len() == b.len(),
        limbs_wf(m, a),
        limbs_wf(m, b),
    ensures
        ({
            let r = chain_add(m, a, b, c);
            &&& r.0.len() == a.len()
            &&& limbs_wf(m, r.0)
            &&& le_value(m, r.0) + (if r.1 {
                vstd::arithmetic::power::pow(m, a.len())
            } else {
                0int
            }) == le_value(m, a) + le_value(m, b) + (if c {
                1int
            } else {
                0int
            })
        }),
    decreases a.len(),
{
    let r = chain_add(m, a, b, c);
    if a.len() == 0 {
        vstd::arithmetic::power::lemma_pow0(m);
    } else {
        let at = a.subrange(1, a.len() as int);
        let bt = b.subrange(1, b.len() as int);
        let t = a[0] + b[0] + (if c {
            1int
        } else {
            0int
        });
        let c1 = t >= m;
        vstd::arithmetic::div_mod::lemma_mod_bound(t, m);
        assert(t % m == t - (if c1 {
            m
        } else {
            0int
        })) by {
            if c1 {
                vstd::arithmetic::div_mod::lemma_small_mod((t - m) as nat, m as nat);
                vstd::arithmetic::div_mod::lemma_mod_add_multiples_vanish(t - m, m);
            } else {
                vstd::arithmetic::div_mod::lemma_small_mod(t as nat, m as nat);
            }
        };
        assert(limbs_wf(m, at) && limbs_wf(m, bt));
        lemma_carry_add_chain(m, at, bt, c1);
        let rest = chain_add(m, at, bt, c1);
        assert(r.0.subrange(1, r.0.len() as int) =~= rest.0);
        assert(r.0[0] == t % m);
        let p1 = vstd::arithmetic::power::pow(m, at.len());
        assert(vstd::arithmetic::power::pow(m, a.len()) == m * p1) by {
            vstd::arithmetic::power::lemma_pow1(m);
            vstd::arithmetic::power::lemma_pow_adds(m, 1, at.len());
        };
        let va = le_value(m, at);
        let vb = le_value(m, bt);
        let vr = le_value(m, rest.0);
        let x = vr + (if rest.1 {
            p1
        } else {
            0int
        }) - (if c1 {
            1int
        } else {
            0int
        });
        let y = va + vb;
        assert(x == y);
        assert(m * x == m * y);
        assert(m * (vr + (if rest.1 {
            p1
        } else {
            0int
        }) - (if c1 {
            1int
        } else {
            0int
        })) == m * vr + m * (if rest.1 {
            p1
        } else {
            0int
        }) - m * (if c1 {
            1int
        } else {
            0int
        })) by (nonlinear_arith);
        assert(m * (va + vb) == m * va + m * vb) by (nonlinear_arith);
    }
}

} // verus!

verus! {

/// The wide intermediate of `carry_mul` never overflows: a product of two
/// words plus a word of carry always fits in the doubled width.
pub proof fn lemma_carry_mul_no_overflow(m: int, a: int, b: int, c: int)
    requires
        1 < m,
        0 <= a < m,
        0 <= b < m,
        0 <= c < m,
    ensures
        0 <= a * b + c,
        a * b + c < m * m,
{
    assert(a * b + c <= (m - 1) * (m - 1) + (m - 1) && 0 <= a * b) by (nonlinear_arith)
        requires
            0 <= a <= m - 1,
            0 <= b <= m - 1,
            0 <= c <= m - 1;
    assert((m - 1) * (m - 1) + (m - 1) < m * m) by (nonlinear_arith)
        requires
            1 < m;
}

/// A value decomposed into a low word below `m` and a nonnegative high word
/// is decomposed uniquely: the pair `widen_mul` and `carry_mul` return is
/// the remainder and quotient of the wide product by `m`.
pub proof fn lemma_mul_decomposition(m: int, t: int, low: int, high: int)
    requires
        1 < m,
        0 <= low < m,
        high * m + low == t,
    ensures
        low == t % m,
        high == t / m,
{
    vstd::arithmetic::div_mod::lemma_fundamental_div_mod_converse(t, m, high, low);
}

/// The limb-by-limb multiplication chain: each step multiplies one limb of
/// `a` by the single word `b`, adds the carry in, keeps the low word and
/// passes the high word on, exactly as `carry_mul` does.
pub open spec fn chain_mul(m: int, a: Seq<int>, b: int, c: int) -> (Seq<int>, int)
    decreases a.len(),
{
    if a.len() == 0 {
        (Seq::<int>::empty(), c)
    } else {
        let w = a[0] * b + c;
        let rest = chain_mul(m, a.subrange(1, a.len() as int), b, w / m);
        (seq![w % m].add(rest.0), rest.1)
    }
}

/// Carry-mul chaining: multiplying a little-endian limb sequence by a single
/// word with `carry_mul`'s step reproduces schoolbook long multiplication
/// exactly, the final carry included, and every intermediate carry stays a
/// single word.
pub proof fn lemma_carry_mul_chain(m: int, a: Seq<int>, b: int, c: int)
    requires
        1 < m,
        limbs_wf(m, a),
        0 <= b < m,
        0 <= c < m,
    ensures
        ({
            let r = chain_mul(m, a, b, c);
            &&& r.0.len() == a.len()
            &&& limbs_wf(m, r.0)
            &&& 0 <= r.1 < m
            &&& le_value(m, r.0) + vstd::arithmetic::power::pow(m, a.len()) * r.1 == le_value(
                m,
                a,
            ) * b + c
        }),
    decreases a.len(),
{
    let r = chain_mul(m, a, b, c);
    if a.len() == 0 {
        vstd::arithmetic::power::lemma_pow0(m);
        assert(le_value(m, a) * b == 0) by (nonlinear_arith)
            requires
                le_value(m, a) == 0;
    } else {
        let at = a.subrange(1, a.len() as int);
        let a0 = a[0];
        let w = a0 * b + c;
        lemma_carry_mul_no_overflow(m, a0, b, c);
        vstd::arithmetic::div_mod::lemma_mod_bound(w, m);
        vstd::arithmetic::div_mod::lemma_fundamental_div_mod(w, m);
        let wdiv = w / m;
        assert(wdiv < m) by {
            vstd::arithmetic::div_mod::lemma_multiply_divide_lt(w, m, m);
        };
        assert(0 <= wdiv) by {
            vstd::arithmetic::div_mod::lemma_div_pos_is_pos(w, m);
        };
        assert(limbs_wf(m, at));
        lemma_carry_mul_chain(m, at, b, wdiv);
        let rest = chain_mul(m, at, b, wdiv);
        assert(r.0.subrange(1, r.0.len() as int) =~= rest.0);
        assert(r.0[0] == w % m);
        let p1 = vstd::arithmetic::power::pow(m, at.len());
        assert(vstd::arithmetic::power::pow(m, a.len()) == m * p1) by {
            vstd::arithmetic::power::lemma_pow1(m);
            vstd::arithmetic::power::lemma_pow_adds(m, 1, at.len());
        };
        let va = le_value(m, at);
        let vr = le_value(m, rest.0);
        let hi = rest.1;
        assert(vr + p1 * hi == va * b + wdiv);
        assert(m * (vr + p1 * hi) == m * (va * b + wdiv));
        assert(m * (vr + p1 * hi) == m * vr + m * (p1 * hi)) by (nonlinear_arith);
        assert(m * (p1 * hi) == (m * p1) * hi) by (nonlinear_arith);
        assert(m * (va * b + wdiv) == m * (va * b) + m * wdiv) by (nonlinear_arith);
        assert((a0 + m * va) * b == a0 * b + m * (va * b)) by (nonlinear_arith);
        assert(le_value(m, a) == a0 + m * va);
    }
}

/// The rounding law for unsigned rounded division: the quotient is the
/// nearest integer to the true ratio, with ties rounding up: it is the
/// unique `q` with `q - 1/2 <= d/v < q + 1/2`, written without fractions.
pub proof fn lemma_rounded_div_uint_rounds(d: int, v: int)
    requires
        0 <= d,
        0 < v,
    ensures
        ({
            let q = rounded_div_uint_spec(d, v);
            &&& 2 * (q * v) <= 2 * d + v
            &&& 2 * d < 2 * (q * v) + v
        }),
{
    let h = v / 2;
    let q = (d + h) / v;
    vstd::arithmetic::div_mod::lemma_fundamental_div_mod(d + h, v);
    vstd::arithmetic::div_mod::lemma_mod_bound(d + h, v);
    vstd::arithmetic::div_mod::lemma_fundamental_div_mod(v, 2);
    vstd::arithmetic::div_mod::lemma_mod_bound(v, 2);
    assert(q * v == v * q) by (nonlinear_arith);
}

/// The rounding law for signed rounded division with a positive divisor:
/// the quotient is the nearest integer to the true ratio, ties rounding
/// away from zero. A negative divisor reduces to this by negating both
/// operands.
pub proof fn lemma_rounded_div_int_rounds(d: int, v: int)
    requires
        0 < v,
    ensures
        ({
            let q = rounded_div_int_spec(d, v);
            &&& d >= 0 ==> 2 * (q * v) <= 2 * d + v && 2 * d < 2 * (q * v) + v
            &&& d < 0 ==> 2 * (q * v) - v < 2 * d && 2 * d <= 2 * (q * v) + v
        }),
{
    let h = v / 2;
    vstd::arithmetic::div_mod::lemma_fundamental_div_mod(v, 2);
    vstd::arithmetic::div_mod::lemma_mod_bound(v, 2);
    if d >= 0 {
        assert(rounded_div_int_spec(d, v) == rounded_div_uint_spec(d, v));
        lemma_rounded_div_uint_rounds(d, v);
    } else {
        let p = (h - d) / v;
        let q = rounded_div_int_spec(d, v);
        vstd::arithmetic::div_mod::lemma_fundamental_div_mod(h - d, v);
        vstd::arithmetic::div_mod::lemma_mod_bound(h - d, v);
        assert(q == -p);
        assert(q * v == -(p * v) && p * v == v * p) by (nonlinear_arith)
            requires
                q == -p;
    }
}

/// Rounded signed division is symmetric under negating both operands: the
/// quotient of `-d` by `-v` is the quotient of `d` by `v`.
pub proof fn lemma_rounded_div_int_negate(d: int, v: int)
    requires
        v != 0,
    ensures
        rounded_div_int_spec(-d, -v) == rounded_div_int_spec(d, v),
{
    let h = tdiv(v, 2);
    assert(tdiv(-v, 2) == -h);
    if d == 0 {
        let va = vstd::math::abs(v) as int;
        vstd::arithmetic::div_mod::lemma_fundamental_div_mod(va, 2);
        vstd::arithmetic::div_mod::lemma_mod_bound(va, 2);
        assert(vstd::math::abs(h) < va);
        assert((vstd::math::abs(h) as int) / va == 0) by {
            vstd::arithmetic::div_mod::lemma_basic_div(vstd::math::abs(h) as int, va);
        };
    }
}

} // verus!

verus! {

/// A well-formed limb sequence stands for a value in `[0, m^k)`.
pub proof fn lemma_le_value_bound(m: int, s: Seq<int>)
    requires
        1 < m,
        limbs_wf(m, s),
    ensures
        0 <= le_value(m, s) < vstd::arithmetic::power::pow(m, s.len()),
    decreases s.len(),
{
    if s.len() == 0 {
        vstd::arithmetic::power::lemma_pow0(m);
    } else {
        let t = s.subrange(1, s.len() as int);
        assert(limbs_wf(m, t));
        lemma_le_value_bound(m, t);
        let vt = le_value(m, t);
        let p1 = vstd::arithmetic::power::pow(m, t.len());
        assert(vstd::arithmetic::power::pow(m, s.len()) == m * p1) by {
            vstd::arithmetic::power::lemma_pow1(m);
            vstd::arithmetic::power::lemma_pow_adds(m, 1, t.len());
        };
        assert(0 <= m * vt && s[0] + m * vt < m * p1) by (nonlinear_arith)
            requires
                1 < m,
                0 <= s[0] < m,
                0 <= vt,
                vt + 1 <= p1;
    }
}

/// The carry out of a full addition chain is set if and only if the true sum
/// of the two big integers and the carry in exceeds `m^k - 1`.
pub proof fn lemma_carry_add_chain_overflow(m: int, a: Seq<int>, b: Seq<int>, c: bool)
    requires
        1 < m,
        a.len() == b.len(),
        limbs_wf(m, a),
        limbs_wf(m, b),
    ensures
        chain_add(m, a, b, c).1 <==> le_value(m, a) + le_value(m, b) + (if c {
            1int
        } else {
            0int
        }) > vstd::arithmetic::power::pow(m, a.len()) - 1,
{
    lemma_carry_add_chain(m, a, b, c);
    lemma_le_value_bound(m, chain_add(m, a, b, c).0);
    vstd::arithmetic::power::lemma_pow_positive(m, a.len());
}

} // verus!
