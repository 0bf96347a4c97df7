//! Binary64 numbers carried as their bit patterns.
//!
//! The renderer never computes with the numbers it is handed; it orders them
//! and it asks which screen cell a coordinate falls into. Both questions are
//! answered here from the sixty-four bits alone.

use vstd::prelude::*;
use vstd::arithmetic::power2::*;
use vstd::bits::*;

verus! {

/// Lowest bit pattern with the sign bit set: 2^63.
pub const SIGN_BIT: u64 = 0x8000_0000_0000_0000;

/// Lowest bit pattern with a non-zero exponent: 2^52.
pub const HIDDEN_BIT: u64 = 0x0010_0000_0000_0000;

/// Magnitude of the two infinities; every larger magnitude is not a number.
pub const INFINITY_BITS: u64 = 0x7ff0_0000_0000_0000;

/// Bits of the number one.
pub const ONE_BITS: u64 = 0x3ff0_0000_0000_0000;

/// Bits of the binary64 number nearest to a full turn in radians.
pub const FULL_TURN_BITS: u64 = 0x4019_21fb_5444_2d18;

/// A binary64 number, held as its 64 bits: one sign bit, eleven exponent bits
/// and fifty-two fraction bits.
#[derive(Clone, Copy, Debug, PartialEq, Eq, Structural)]
pub struct Scalar {
    pub bits: u64,
}

impl Scalar {
    /// Whether the sign bit is set.
    pub open spec fn negative(self) -> bool {
        self.bits >= SIGN_BIT
    }

    /// The bits below the sign bit.
    pub open spec fn magnitude(self) -> int {
        self.bits as int % (SIGN_BIT as int)
    }

    /// The biased exponent, from 0 to 2047.
    pub open spec fn exponent(self) -> int {
        self.magnitude() / (HIDDEN_BIT as int)
    }

    /// The fifty-two fraction bits.
    pub open spec fn fraction(self) -> int {
        self.magnitude() % (HIDDEN_BIT as int)
    }

    /// Not a number: the exponent is all ones and the fraction is not zero.
    pub open spec fn is_nan(self) -> bool {
        self.magnitude() > INFINITY_BITS
    }

    /// Plus or minus zero.
    pub open spec fn is_zero(self) -> bool {
        self.magnitude() == 0
    }

    /// The place of a number in the order of all numbers: the magnitude,
    /// counted downwards from zero when the sign bit is set. Both zeros have
    /// key 0. Of two numbers the one with the smaller key is the smaller
    /// number.
    pub open spec fn key(self) -> int {
        if self.negative() {
            -self.magnitude()
        } else {
            self.magnitude()
        }
    }

    /// `self < other`; false as soon as one side is not a number.
    pub open spec fn less(self, other: Scalar) -> bool {
        !self.is_nan() && !other.is_nan() && self.key() < other.key()
    }

    /// `self <= other`; false as soon as one side is not a number.
    pub open spec fn less_eq(self, other: Scalar) -> bool {
        !self.is_nan() && !other.is_nan() && self.key() <= other.key()
    }

    /// The fraction, with the hidden leading bit unless the exponent is zero.
    pub open spec fn significand(self) -> int {
        if self.exponent() == 0 {
            self.fraction()
        } else {
            self.fraction() + HIDDEN_BIT
        }
    }

    /// The power of two that scales the significand, shifted by 1075 so that
    /// it is never negative: the number's absolute value is
    /// `significand * 2^(scale - 1075)`.
    pub open spec fn scale(self) -> int {
        if self.exponent() == 0 {
            1
        } else {
            self.exponent()
        }
    }

    /// The absolute value rounded towards zero. (For an infinity: a number
    /// that no `u64` reaches.)
    pub open spec fn whole(self) -> int {
        if self.scale() >= 1075 {
            self.significand() * pow2((self.scale() - 1075) as nat)
        } else {
            self.significand() / (pow2((1075 - self.scale()) as nat) as int)
        }
    }

    /// The index of the cell that a coordinate falls into, on an axis of
    /// `limit` cells: the coordinate rounded towards zero, where
    /// `0 <= coordinate < limit`; none for any other coordinate.
    pub open spec fn cell(self, limit: u64) -> Option<u64> {
        if !self.is_nan() && (!self.negative() || self.is_zero()) && self.whole() < limit {
            Some(self.whole() as u64)
        } else {
            None
        }
    }

    /// The absolute value times 2^1074: an integer, since no binary64 number
    /// has a bit below 2^-1074. (For an infinity: a number above that of
    /// every finite value.)
    pub open spec fn abs_scaled(self) -> int {
        self.significand() * pow2((self.scale() - 1) as nat)
    }

    /// The number times 2^1074.
    pub open spec fn scaled(self) -> int {
        if self.negative() {
            -self.abs_scaled()
        } else {
            self.abs_scaled()
        }
    }

    /// A greater magnitude is a greater absolute value.
    pub proof fn lemma_magnitude_orders(self, other: Scalar)
        requires
            self.magnitude() < other.magnitude(),
        ensures
            0 <= self.abs_scaled() < other.abs_scaled(),
    {
        let h = HIDDEN_BIT as int;
        let (e1, f1) = (self.exponent(), self.fraction());
        let (e2, f2) = (other.exponent(), other.fraction());
        let pa = pow2((self.scale() - 1) as nat) as int;
        let pb = pow2((other.scale() - 1) as nat) as int;
        lemma_pow2_pos((self.scale() - 1) as nat);
        lemma_pow2_pos((other.scale() - 1) as nat);
        vstd::arithmetic::div_mod::lemma_fundamental_div_mod(self.magnitude(), h);
        vstd::arithmetic::div_mod::lemma_fundamental_div_mod(other.magnitude(), h);
        vstd::arithmetic::div_mod::lemma_div_is_ordered(self.magnitude(), other.magnitude(), h);
        assert(0 <= self.significand() * pa) by (nonlinear_arith)
            requires
                0 <= self.significand(),
                0 < pa,
        ;
        if e1 == e2 {
            assert(h * e1 == h * e2);
            assert(f1 < f2);
            assert(self.significand() * pa < other.significand() * pb) by (nonlinear_arith)
                requires
                    self.significand() < other.significand(),
                    pa == pb,
                    0 < pa,
            ;
            assert(self.abs_scaled() < other.abs_scaled());
        } else {
            assert(e1 < e2);
            assert(h <= other.significand() * pb) by (nonlinear_arith)
                requires
                    h <= other.significand(),
                    1 <= pb,
            ;
            if e1 == 0 {
                lemma2_to64();
                assert(pa == 1);
                assert(self.significand() * pa == self.significand()) by (nonlinear_arith)
                    requires
                        pa == 1,
                ;
                assert(self.abs_scaled() < other.abs_scaled());
            } else {
                lemma_pow2_unfold(e1 as nat);
                if e1 < e2 - 1 {
                    lemma_pow2_strictly_increases(e1 as nat, (e2 - 1) as nat);
                }
                assert(self.significand() * pa < h * pb) by (nonlinear_arith)
                    requires
                        self.significand() < 2 * h,
                        2 * pa <= pb,
                        0 < pa,
                        0 < h,
                ;
                assert(h * pb <= other.significand() * pb) by (nonlinear_arith)
                    requires
                        h <= other.significand(),
                        0 < pb,
                ;
                assert(self.abs_scaled() < other.abs_scaled());
            }
        }
    }

    /// The key orders as the numbers do: of two values that are numbers, one
    /// has the smaller key exactly when it is the smaller number, and they
    /// have the same key exactly when they are the same number.
    pub proof fn lemma_key_orders_as_numbers(self, other: Scalar)
        requires
            !self.is_nan(),
            !other.is_nan(),
        ensures
            self.key() < other.key() <==> self.scaled() < other.scaled(),
            self.key() == other.key() <==> self.scaled() == other.scaled(),
    {
        let zero = Scalar { bits: 0 };
        assert(zero.abs_scaled() == 0) by {
            assert(zero.significand() * pow2((zero.scale() - 1) as nat) == 0) by (nonlinear_arith)
                requires
                    zero.significand() == 0,
            ;
        }
        if self.magnitude() < other.magnitude() {
            self.lemma_magnitude_orders(other);
        } else if other.magnitude() < self.magnitude() {
            other.lemma_magnitude_orders(self);
        } else {
            assert(self.exponent() == other.exponent() && self.fraction() == other.fraction());
        }
        if self.magnitude() > 0 {
            zero.lemma_magnitude_orders(self);
        } else {
            assert(self.exponent() == 0 && self.fraction() == 0);
        }
        if other.magnitude() > 0 {
            zero.lemma_magnitude_orders(other);
        } else {
            assert(other.exponent() == 0 && other.fraction() == 0);
        }
    }

    /// The named bit patterns are the numbers they are named after: zero is
    /// zero, one is one, and the full turn lies between 6.283185307179586
    /// and 6.283185307179587.
    pub proof fn lemma_named_numbers()
        ensures
            (Scalar { bits: 0 }).scaled() == 0,
            (Scalar { bits: ONE_BITS }).scaled() == pow2(1074),
            6283185307179586 * pow2(1074) <= (Scalar { bits: FULL_TURN_BITS }).scaled()
                * 1000000000000000 <= 6283185307179587 * pow2(1074),
            (Scalar { bits: (SIGN_BIT + FULL_TURN_BITS) as u64 }).scaled() == -(Scalar {
                bits: FULL_TURN_BITS,
            }).scaled(),
    {
        lemma2_to64();
        lemma2_to64_rest();
        let zero = Scalar { bits: 0 };
        let one = Scalar { bits: ONE_BITS };
        let turn = Scalar { bits: FULL_TURN_BITS };
        let back = Scalar { bits: (SIGN_BIT + FULL_TURN_BITS) as u64 };
        assert(zero.significand() == 0 && zero.scale() == 1);
        assert(one.significand() == 0x10_0000_0000_0000 && one.scale() == 1023);
        assert(turn.significand() == 0x19_21fb_5444_2d18 && turn.scale() == 1025);
        assert(back.significand() == 0x19_21fb_5444_2d18 && back.scale() == 1025);
        assert(back.negative() && !turn.negative());
        lemma_pow2_adds(52, 1022);
        lemma_pow2_adds(50, 1024);
        let p = pow2(1024) as int;
        assert(0x19_21fb_5444_2d18 * p * 1000000000000000 >= 6283185307179586 * (
        0x4_0000_0000_0000 * p)) by (nonlinear_arith)
            requires
                p >= 0,
        ;
        assert(0x19_21fb_5444_2d18 * p * 1000000000000000 <= 6283185307179587 * (
        0x4_0000_0000_0000 * p)) by (nonlinear_arith)
            requires
                p >= 0,
        ;
    }

    /// `whole` is the absolute value rounded towards zero: the absolute
    /// value times 2^1074, divided by 2^1074, the remainder dropped.
    pub proof fn lemma_whole_is_floor(self)
        ensures
            self.whole() == self.abs_scaled() / (pow2(1074) as int),
    {
        let s = self.significand();
        let scale = self.scale();
        let low = pow2((scale - 1) as nat) as int;
        lemma_pow2_pos((scale - 1) as nat);
        lemma_pow2_pos(1074);
        if scale >= 1075 {
            let up = pow2((scale - 1075) as nat) as int;
            lemma_pow2_adds((scale - 1075) as nat, 1074);
            assert(s * low == (s * up) * pow2(1074)) by (nonlinear_arith)
                requires
                    low == up * pow2(1074),
            ;
            vstd::arithmetic::div_mod::lemma_div_by_multiple(s * up, pow2(1074) as int);
        } else {
            let down = pow2((1075 - scale) as nat) as int;
            lemma_pow2_pos((1075 - scale) as nat);
            lemma_pow2_adds((scale - 1) as nat, (1075 - scale) as nat);
            assert(pow2(1074) == low * down);
            assert(s * low == low * s) by (nonlinear_arith);
            vstd::arithmetic::div_mod::lemma_truncate_middle(s, low, down);
            vstd::arithmetic::div_mod::lemma_div_denominator(low * s, low, down);
            vstd::arithmetic::div_mod::lemma_div_by_multiple(s, low);
            assert((low * s) / low == s) by {
                assert(low * s == s * low) by (nonlinear_arith);
            }
        }
    }

    /// A cell index lies on the axis.
    pub proof fn lemma_cell_on_axis(self, limit: u64)
        ensures
            self.whole() >= 0,
            self.cell(limit) matches Some(i) ==> i < limit && i == self.whole(),
    {
        let s = self.significand();
        if self.scale() >= 1075 {
            let p = pow2((self.scale() - 1075) as nat);
            assert(s * p >= 0) by (nonlinear_arith)
                requires
                    s >= 0,
                    p >= 0,
            ;
        } else {
            let p = pow2((1075 - self.scale()) as nat);
            lemma_pow2_pos((1075 - self.scale()) as nat);
            vstd::arithmetic::div_mod::lemma_div_pos_is_pos(s, p as int);
        }
    }

    /// Wraps a bit pattern.
    pub fn from_bits(bits: u64) -> (s: Scalar)
        ensures
            s.bits == bits,
    {
        Scalar { bits }
    }

    /// The bit pattern.
    pub fn to_bits(self) -> (bits: u64)
        ensures
            bits == self.bits,
    {
        self.bits
    }

    /// The number zero.
    pub fn zero() -> (s: Scalar)
        ensures
            s.bits == 0,
            s.key() == 0,
            !s.is_nan(),
    {
        Scalar { bits: 0 }
    }

    /// The number one.
    pub fn one() -> (s: Scalar)
        ensures
            s.bits == ONE_BITS,
            s.key() == ONE_BITS,
            !s.is_nan(),
    {
        Scalar { bits: ONE_BITS }
    }

    /// A full turn in radians.
    pub fn full_turn() -> (s: Scalar)
        ensures
            s.bits == FULL_TURN_BITS,
            s.key() == FULL_TURN_BITS,
            !s.is_nan(),
    {
        Scalar { bits: FULL_TURN_BITS }
    }

    /// A full turn backwards.
    pub fn full_turn_back() -> (s: Scalar)
        ensures
            s.bits == SIGN_BIT + FULL_TURN_BITS,
            s.key() == -(FULL_TURN_BITS as int),
            !s.is_nan(),
    {
        Scalar { bits: 0xc019_21fb_5444_2d18 }
    }

    /// The magnitude, computed.
    fn magnitude_bits(self) -> (m: u64)
        ensures
            m == self.magnitude(),
            m < SIGN_BIT,
    {
        let bits = self.bits;
        assert(bits & 0x7fff_ffff_ffff_ffff == bits % 0x8000_0000_0000_0000) by (bit_vector);
        bits & 0x7fff_ffff_ffff_ffff
    }

    /// Whether the value is not a number.
    pub fn nan(self) -> (r: bool)
        ensures
            r == self.is_nan(),
    {
        self.magnitude_bits() > INFINITY_BITS
    }

    /// The key, computed.
    fn order_key(self) -> (k: i64)
        ensures
            k == self.key(),
    {
        let m = self.magnitude_bits();
        if self.bits >= SIGN_BIT {
            -(m as i64)
        } else {
            m as i64
        }
    }

    /// `self < other`.
    pub fn lt(self, other: Scalar) -> (r: bool)
        ensures
            r == self.less(other),
    {
        !self.nan() && !other.nan() && self.order_key() < other.order_key()
    }

    /// `self <= other`.
    pub fn le(self, other: Scalar) -> (r: bool)
        ensures
            r == self.less_eq(other),
    {
        !self.nan() && !other.nan() && self.order_key() <= other.order_key()
    }

    /// The cell that the coordinate falls into on an axis of `limit` cells.
    pub fn cell_below(self, limit: u64) -> (r: Option<u64>)
        ensures
            r == self.cell(limit),
            r matches Some(i) ==> i < limit,
    {
        let m = self.magnitude_bits();
        if m > INFINITY_BITS || (self.bits >= SIGN_BIT && m != 0) {
            return None;
        }
        let e = m >> 52;
        let f = m & 0x000f_ffff_ffff_ffff;
        assert(e == m / 0x0010_0000_0000_0000 && f == m % 0x0010_0000_0000_0000 && e <= 2047) by (bit_vector)
            requires
                e == m >> 52,
                f == m & 0x000f_ffff_ffff_ffff,
                m <= 0x7ff0_0000_0000_0000,
        ;
        proof {
            lemma2_to64();
            lemma2_to64_rest();
        }
        let whole: u64 = if e < 1023 {
            proof {
                let down = (1075 - self.scale()) as nat;
                if down > 53 {
                    lemma_pow2_strictly_increases(53, down);
                }
                vstd::arithmetic::div_mod::lemma_basic_div(
                    self.significand(),
                    pow2(down) as int,
                );
            }
            0
        } else if e < 1075 {
            let s = f + HIDDEN_BIT;
            proof {
                lemma_u64_shr_is_div(s, (1075 - e) as u64);
            }
            s >> (1075 - e)
        } else if e < 1087 {
            let s = f + HIDDEN_BIT;
            proof {
                let up = (e - 1075) as nat;
                if up < 11 {
                    lemma_pow2_strictly_increases(up, 11);
                }
                assert(s * pow2(up) <= s * 2048) by (nonlinear_arith)
                    requires
                        pow2(up) <= 2048,
                ;
                lemma_u64_shl_is_mul(s, (e - 1075) as u64);
            }
            s << (e - 1075)
        } else {
            proof {
                let up = (e - 1075) as nat;
                if up > 12 {
                    lemma_pow2_strictly_increases(12, up);
                }
                assert(self.significand() * pow2(up) >= 0x1_0000_0000_0000_0000) by (nonlinear_arith)
                    requires
                        self.significand() >= 0x0010_0000_0000_0000,
                        pow2(up) >= 4096,
                ;
            }
            return None;
        };
        if whole < limit {
            Some(whole)
        } else {
            None
        }
    }
}

} // verus!
