//! Reals as bit patterns.
//!
//! A real number of the machine is an IEEE-754 binary64 value, held as the 64
//! bits of its interchange format: one sign bit, eleven exponent bits and
//! fifty-two fraction bits. Everything the machine itself decides about a real
//! (its order, its sign, whether it is zero, its integer part) is a function
//! of those bits and is defined here. Rounding arithmetic is not: the machine
//! hands it to its host.
use vstd::prelude::*;
use vstd::std_specs::bits::{axiom_u64_leading_zeros, u64_leading_zeros};
use vstd::arithmetic::div_mod::{lemma_fundamental_div_mod, lemma_mod_bound};
use vstd::arithmetic::power2::{
    lemma2_to64, lemma_pow2_pos, lemma_pow2_strictly_increases, lemma_pow2_unfold, pow2,
};
use vstd::bits::{lemma_u64_shl_is_mul, lemma_u64_shr_is_div};
use std::cmp::Ordering;

verus! {

/// An IEEE-754 binary64 value, by its bits.
#[derive(Clone, Copy, Debug, PartialEq, Eq, Structural)]
pub struct Real {
    pub bits: u64,
}

/// The bit that holds the sign.
pub const SIGN_BIT: u64 = 0x8000_0000_0000_0000;

/// The bits that hold exponent and fraction.
pub const MAGNITUDE_BITS: u64 = 0x7fff_ffff_ffff_ffff;

/// The magnitude of positive infinity: all exponent bits set, no fraction bit.
pub const INFINITY_BITS: u64 = 0x7ff0_0000_0000_0000;

/// The bits that hold the fraction.
pub const FRACTION_BITS: u64 = 0x000f_ffff_ffff_ffff;

/// The bit that a normal number's significand carries above its fraction.
pub const HIDDEN_BIT: u64 = 0x0010_0000_0000_0000;

impl Real {
    /// Exponent and fraction, without the sign.
    pub open spec fn magnitude(self) -> u64 {
        self.bits & MAGNITUDE_BITS
    }

    /// Whether the sign bit is set.
    pub open spec fn sign(self) -> bool {
        self.bits & SIGN_BIT != 0
    }

    /// The biased exponent, from 0 to 2047.
    pub open spec fn exponent(self) -> u64 {
        self.magnitude() >> 52
    }

    /// The significand of a normal number: the fraction under the hidden bit.
    pub open spec fn significand(self) -> u64 {
        (self.bits & FRACTION_BITS) | HIDDEN_BIT
    }

    /// Not a number: the exponent is all ones and the fraction is not zero.
    pub open spec fn nan(self) -> bool {
        self.magnitude() > INFINITY_BITS
    }

    /// Positive or negative zero.
    pub open spec fn zero(self) -> bool {
        self.magnitude() == 0
    }

    /// The place of a number that is not NaN on the real line, as an integer
    /// that grows with the number: both zeros are 0, and of two numbers the
    /// smaller has the smaller key.
    pub open spec fn key(self) -> int {
        if self.sign() {
            -self.magnitude()
        } else {
            self.magnitude() as int
        }
    }

    /// Less than zero: not NaN, and strictly below both zeros.
    pub open spec fn negative(self) -> bool {
        !self.nan() && self.key() < 0
    }

    /// The number with its sign flipped.
    pub open spec fn negated(self) -> Real {
        Real { bits: self.bits ^ SIGN_BIT }
    }

    /// The integer part of the number, rounded toward zero and held to the
    /// range of `i64`; 0 for NaN.
    pub open spec fn truncated(self) -> i64 {
        let e = self.exponent();
        if self.nan() || e < 1023 {
            0
        } else if e >= 1086 {
            if self.sign() {
                i64::MIN
            } else {
                i64::MAX
            }
        } else {
            let whole = if e >= 1075 {
                self.significand() << ((e - 1075) as u64)
            } else {
                self.significand() >> ((1075 - e) as u64)
            };
            if self.sign() {
                (-whole) as i64
            } else {
                whole as i64
            }
        }
    }

    /// The real nearest to an integer, and of two that are as near the one
    /// with the even significand. An integer of up to 53 bits is kept as it
    /// is; a longer one loses its low bits, and is rounded up where they make
    /// more than half of the last bit kept, or half of it and that bit is
    /// odd.
    pub open spec fn of_integer(x: i64) -> Real {
        if x == 0 {
            Real { bits: 0 }
        } else {
            let m = size_of(x);
            let top = high_bit(m);
            let rounded: u64 = if top <= 52 {
                m << ((52 - top) as u64)
            } else {
                let kept: u64 = m >> ((top - 52) as u64);
                let rest: u64 = m & (((1u64 << ((top - 52) as u64)) - 1) as u64);
                let half: u64 = 1u64 << ((top - 53) as u64);
                if rest > half || (rest == half && kept & 1 == 1) {
                    (kept + 1) as u64
                } else {
                    kept
                }
            };
            let sign: u64 = if x < 0 {
                SIGN_BIT
            } else {
                0
            };
            Real { bits: sign | ((((1023 + top) as u64) << 52) + (rounded - HIDDEN_BIT)) as u64 }
        }
    }

    /// The real nearest to an integer.
    pub fn from_integer(x: i64) -> (r: Real)
        ensures
            r == Real::of_integer(x),
    {
        if x == 0 {
            return Real { bits: 0 };
        }
        let m: u64 = if x >= 0 {
            x as u64
        } else if x == i64::MIN {
            0x8000_0000_0000_0000
        } else {
            (0 - x) as u64
        };
        let zeros: u32 = m.leading_zeros();
        proof {
            axiom_u64_leading_zeros(m);
            lemma_high_bit(m);
        }
        let top: u64 = 63 - (zeros as u64);
        let rounded: u64 = if top <= 52 {
            let by: u64 = 52 - top;
            assert(0x0010_0000_0000_0000u64 <= m << by < 0x0020_0000_0000_0000u64) by (bit_vector)
                requires
                    top <= 52,
                    by == 52 - top,
                    (m >> top) == 1,
            ;
            m << by
        } else {
            let by: u64 = top - 52;
            let kept: u64 = m >> by;
            assert(0x0010_0000_0000_0000u64 <= kept < 0x0020_0000_0000_0000u64 && (1u64 << by)
                >= 1) by (bit_vector)
                requires
                    52 < top <= 63,
                    by == top - 52,
                    kept == m >> by,
                    (m >> top) == 1,
            ;
            let low: u64 = (1u64 << by) - 1;
            let rest: u64 = m & low;
            let half: u64 = 1u64 << (by - 1);
            if rest > half || (rest == half && kept & 1 == 1) {
                kept + 1
            } else {
                kept
            }
        };
        let exponent: u64 = 1023 + top;
        assert(exponent << 52 <= 0x43e0_0000_0000_0000u64) by (bit_vector)
            requires
                exponent <= 1086,
        ;
        let sign: u64 = if x < 0 {
            SIGN_BIT
        } else {
            0
        };
        Real { bits: sign | ((exponent << 52) + (rounded - HIDDEN_BIT)) }
    }

    pub fn from_bits(bits: u64) -> (r: Real)
        ensures
            r.bits == bits,
    {
        Real { bits }
    }

    pub fn to_bits(&self) -> (r: u64)
        ensures
            r == self.bits,
    {
        self.bits
    }

    pub fn is_nan(&self) -> (r: bool)
        ensures
            r == self.nan(),
    {
        (self.bits & MAGNITUDE_BITS) > INFINITY_BITS
    }

    pub fn is_zero(&self) -> (r: bool)
        ensures
            r == self.zero(),
    {
        (self.bits & MAGNITUDE_BITS) == 0
    }

    pub fn is_negative(&self) -> (r: bool)
        ensures
            r == self.negative(),
    {
        let magnitude: u64 = self.bits & MAGNITUDE_BITS;
        (self.bits & SIGN_BIT) != 0 && magnitude != 0 && magnitude <= INFINITY_BITS
    }

    pub fn negate(&self) -> (r: Real)
        ensures
            r == self.negated(),
    {
        Real { bits: self.bits ^ SIGN_BIT }
    }

    pub fn truncate(&self) -> (r: i64)
        ensures
            r == self.truncated(),
    {
        let bits: u64 = self.bits;
        let magnitude: u64 = bits & MAGNITUDE_BITS;
        let negative: bool = (bits & SIGN_BIT) != 0;
        let e: u64 = magnitude >> 52;
        if magnitude > INFINITY_BITS || e < 1023 {
            0
        } else if e >= 1086 {
            if negative {
                i64::MIN
            } else {
                i64::MAX
            }
        } else {
            let significand: u64 = (bits & FRACTION_BITS) | HIDDEN_BIT;
            let whole: u64 = if e >= 1075 {
                let shift: u64 = e - 1075;
                assert(significand << shift < 0x8000_0000_0000_0000u64) by (bit_vector)
                    requires
                        significand == (bits & 0x000f_ffff_ffff_ffffu64) | 0x0010_0000_0000_0000u64,
                        shift <= 10,
                ;
                significand << shift
            } else {
                let shift: u64 = 1075 - e;
                assert(significand >> shift < 0x8000_0000_0000_0000u64) by (bit_vector)
                    requires
                        significand == (bits & 0x000f_ffff_ffff_ffffu64) | 0x0010_0000_0000_0000u64,
                ;
                significand >> shift
            };
            if negative {
                0i64 - (whole as i64)
            } else {
                whole as i64
            }
        }
    }
}

/// The size of an integer without its sign.
pub open spec fn size_of(x: i64) -> u64 {
    if x < 0 {
        (-x) as u64
    } else {
        x as u64
    }
}

/// The place of the highest bit that is set in a number that is not zero,
/// counted from the lowest, which is 0.
pub open spec fn high_bit(m: u64) -> int {
    63 - u64_leading_zeros(m)
}

/// Above its highest bit a number has no bit.
pub proof fn lemma_high_bit(m: u64)
    requires
        m != 0,
    ensures
        0 <= high_bit(m) <= 63,
        m >> (high_bit(m) as u64) == 1,
{
    axiom_u64_leading_zeros(m);
    let zeros: u64 = u64_leading_zeros(m) as u64;
    let top: u64 = (63 - zeros) as u64;
    let above: u64 = (64 - zeros) as u64;
    assert((m >> top) & 1u64 != 0u64);
    assert(m >> above == 0);
    assert(m >> top == 1) by (bit_vector)
        requires
            top <= 63,
            above == top + 1,
            (m >> top) & 1u64 != 0u64,
            m >> above == 0,
    ;
}

/// The integer part of a number between one and the first that an integer of
/// the machine cannot hold is, but for its sign, its significand times two
/// to the power of its exponent less 1075, rounded down.
pub proof fn law_truncated_whole(x: Real)
    requires
        !x.nan(),
        1023 <= x.exponent() < 1086,
    ensures
        x.exponent() >= 1075 && !x.sign() ==> x.truncated() == x.significand() * pow2(
            (x.exponent() - 1075) as nat,
        ),
        x.exponent() >= 1075 && x.sign() ==> x.truncated() == -(x.significand() * pow2(
            (x.exponent() - 1075) as nat,
        )),
        x.exponent() < 1075 && !x.sign() ==> x.truncated() == x.significand() as nat / pow2(
            (1075 - x.exponent()) as nat,
        ),
        x.exponent() < 1075 && x.sign() ==> x.truncated() == -(x.significand() as nat / pow2(
            (1075 - x.exponent()) as nat,
        )),
{
    let e = x.exponent();
    let s = x.significand();
    let bits = x.bits;
    assert(s < 0x0020_0000_0000_0000u64) by (bit_vector)
        requires
            s == (bits & 0x000f_ffff_ffff_ffffu64) | 0x0010_0000_0000_0000u64,
    ;
    if e >= 1075 {
        let by = (e - 1075) as u64;
        lemma2_to64();
        if by < 10 {
            lemma_pow2_strictly_increases(by as nat, 10);
        }
        assert(s * pow2(by as nat) <= s * 1024) by (nonlinear_arith)
            requires
                pow2(by as nat) <= 1024,
        ;
        lemma_u64_shl_is_mul(s, by);
    } else {
        let by = (1075 - e) as u64;
        lemma_u64_shr_is_div(s, by);
        assert(s >> by < 0x0020_0000_0000_0000u64) by (bit_vector)
            requires
                s < 0x0020_0000_0000_0000u64,
        ;
    }
}

/// What a real holds that was put together from a sign, an exponent and a
/// significand of 53 bits, or one more than the greatest of them: the carry
/// of that one runs into the exponent.
proof fn lemma_packed(sign: u64, exponent: u64, rounded: u64)
    requires
        sign == 0 || sign == SIGN_BIT,
        1023 <= exponent <= 1086,
        HIDDEN_BIT <= rounded <= 2 * HIDDEN_BIT,
    ensures
        ({
            let r = Real { bits: sign | (((exponent << 52) + (rounded - HIDDEN_BIT)) as u64) };
            &&& !r.nan()
            &&& r.sign() == (sign != 0)
            &&& rounded < 2 * HIDDEN_BIT ==> r.exponent() == exponent && r.significand() == rounded
            &&& rounded == 2 * HIDDEN_BIT ==> r.exponent() == exponent + 1 && r.significand()
                == HIDDEN_BIT
        }),
{
    let high: u64 = exponent << 52;
    assert(high <= 0x43e0_0000_0000_0000u64) by (bit_vector)
        requires
            high == exponent << 52,
            exponent <= 1086,
    ;
    let low: u64 = (rounded - HIDDEN_BIT) as u64;
    let body: u64 = (high + low) as u64;
    let bits: u64 = sign | body;
    assert(body & 0x8000_0000_0000_0000u64 == 0 && body <= 0x7ff0_0000_0000_0000u64 && (low
        < 0x0010_0000_0000_0000u64 ==> body >> 52 == exponent && (body & 0x000f_ffff_ffff_ffffu64)
        | 0x0010_0000_0000_0000u64 == low + 0x0010_0000_0000_0000u64) && (low
        == 0x0010_0000_0000_0000u64 ==> body >> 52 == exponent + 1 && (body
        & 0x000f_ffff_ffff_ffffu64) | 0x0010_0000_0000_0000u64 == 0x0010_0000_0000_0000u64))
        by (bit_vector)
        requires
            1023 <= exponent <= 1086,
            high == exponent << 52,
            low <= 0x0010_0000_0000_0000u64,
            body == high + low,
    ;
    assert(bits & 0x7fff_ffff_ffff_ffffu64 == body && bits & 0x8000_0000_0000_0000u64 == sign
        && bits & 0x000f_ffff_ffff_ffffu64 == body & 0x000f_ffff_ffff_ffffu64) by (bit_vector)
        requires
            bits == sign | body,
            sign == 0 || sign == 0x8000_0000_0000_0000u64,
            body & 0x8000_0000_0000_0000u64 == 0,
    ;
    let r = Real { bits };
    assert(r.magnitude() == body);
}

/// The real that an integer is turned into is the nearest one. It is a
/// number with the sign of the integer. Where its exponent says that it has
/// no bits below the units, it is the integer exactly. Else it is off by at
/// most half of the worth of its last bit, and where it is off by exactly
/// that half, its last bit is 0; and where it is a power of two above the
/// integer, where reals lie closer below it, it is off by at most a quarter.
pub proof fn law_integer_nearest(x: i64)
    requires
        x != 0,
    ensures
        !Real::of_integer(x).nan(),
        Real::of_integer(x).sign() == (x < 0),
        1023 <= Real::of_integer(x).exponent() <= 1086,
        Real::of_integer(x).exponent() <= 1075 ==> Real::of_integer(x).significand() == size_of(x)
            * pow2((1075 - Real::of_integer(x).exponent()) as nat),
        Real::of_integer(x).exponent() > 1075 ==> ({
            let r = Real::of_integer(x);
            let unit = pow2((r.exponent() - 1075) as nat) as int;
            let off = r.significand() * unit - size_of(x);
            &&& -unit <= 2 * off <= unit
            &&& (2 * off == unit || 2 * off == -unit) ==> r.significand() % 2 == 0
            &&& (r.significand() == HIDDEN_BIT && off > 0) ==> 4 * off <= unit
        }),
{
    let m = size_of(x);
    lemma_high_bit(m);
    lemma2_to64();
    let top: u64 = high_bit(m) as u64;
    let sign: u64 = if x < 0 {
        SIGN_BIT
    } else {
        0
    };
    let exponent: u64 = (1023 + top) as u64;
    if top <= 52 {
        let by: u64 = (52 - top) as u64;
        let s: u64 = m << by;
        let most: u64 = 0x001f_ffff_ffff_ffffu64 >> by;
        assert(0x0010_0000_0000_0000u64 <= s < 0x0020_0000_0000_0000u64 && m <= most)
            by (bit_vector)
            requires
                top <= 52,
                by == 52 - top,
                m >> top == 1,
                s == m << by,
                most == 0x001f_ffff_ffff_ffffu64 >> by,
        ;
        lemma_packed(sign, exponent, s);
        let p = pow2(by as nat) as int;
        lemma_pow2_pos(by as nat);
        lemma_u64_shr_is_div(0x001f_ffff_ffff_ffffu64, by);
        lemma_fundamental_div_mod(0x001f_ffff_ffff_ffff, p);
        lemma_mod_bound(0x001f_ffff_ffff_ffff, p);
        assert(m * p <= most * p) by (nonlinear_arith)
            requires
                m <= most,
                p > 0,
        ;
        assert(most * p == p * most) by (nonlinear_arith);
        lemma_u64_shl_is_mul(m, by);
    } else {
        let by: u64 = (top - 52) as u64;
        let kept: u64 = m >> by;
        let one: u64 = 1u64 << by;
        let rest: u64 = m & ((one - 1) as u64);
        let half: u64 = 1u64 << ((by - 1) as u64);
        let shifted: u64 = kept << by;
        assert(0x0010_0000_0000_0000u64 <= kept < 0x0020_0000_0000_0000u64 && one >= 1 && shifted
            + rest == m && rest < one && shifted <= m && (kept & 1 == 1 <==> kept % 2 == 1))
            by (bit_vector)
            requires
                52 < top <= 63,
                by == top - 52,
                m >> top == 1,
                kept == m >> by,
                one == 1u64 << by,
                rest == m & ((one - 1) as u64),
                shifted == kept << by,
        ;
        let p = pow2(by as nat) as int;
        lemma_pow2_pos(by as nat);
        if by < 11 {
            lemma_pow2_strictly_increases(by as nat, 11);
        }
        lemma_pow2_unfold(by as nat);
        lemma_pow2_unfold((by + 1) as nat);
        lemma_u64_shl_is_mul(1, by);
        lemma_u64_shl_is_mul(1, (by - 1) as u64);
        assert(one == p);
        assert(2 * half == p);
        lemma_u64_shr_is_div(m, by);
        lemma_fundamental_div_mod(m as int, p);
        lemma_mod_bound(m as int, p);
        assert(kept * p == p * kept) by (nonlinear_arith);
        lemma_u64_shl_is_mul(kept, by);
        assert(m == kept * p + rest);
        let up = rest > half || (rest == half && kept & 1 == 1);
        let rounded: u64 = if up {
            (kept + 1) as u64
        } else {
            kept
        };
        lemma_packed(sign, exponent, rounded);
        assert((kept + 1) * p == kept * p + p) by (nonlinear_arith);
        let r = Real::of_integer(x);
        if rounded == 2 * HIDDEN_BIT {
            assert(r.exponent() - 1075 == by + 1);
            assert(r.significand() * (2 * p) == (kept + 1) * p) by (nonlinear_arith)
                requires
                    r.significand() == 0x0010_0000_0000_0000u64,
                    kept + 1 == 0x0020_0000_0000_0000u64,
            ;
        } else {
            assert(r.exponent() - 1075 == by);
        }
    }
}

/// An integer of up to 53 bits is a real exactly: the real that it is turned
/// into is a number, and its integer part is the integer.
pub proof fn law_integer_kept(x: i64)
    requires
        -0x0020_0000_0000_0000 < x < 0x0020_0000_0000_0000,
    ensures
        !Real::of_integer(x).nan(),
        Real::of_integer(x).truncated() == x,
{
    if x == 0 {
        assert((0u64 & 0x7fff_ffff_ffff_ffffu64) >> 52 == 0) by (bit_vector);
        assert(0u64 & 0x7fff_ffff_ffff_ffffu64 == 0) by (bit_vector);
    } else {
        let m = size_of(x);
        lemma_high_bit(m);
        let top: u64 = high_bit(m) as u64;
        assert(top <= 52) by (bit_vector)
            requires
                top <= 63,
                m >> top == 1,
                m < 0x0020_0000_0000_0000u64,
        ;
        let by: u64 = (52 - top) as u64;
        let s: u64 = m << by;
        let exponent: u64 = (1023 + top) as u64;
        let sign: u64 = if x < 0 {
            SIGN_BIT
        } else {
            0
        };
        let body: u64 = ((exponent << 52) + (s - HIDDEN_BIT)) as u64;
        let bits: u64 = sign | body;
        assert(0x0010_0000_0000_0000u64 <= s < 0x0020_0000_0000_0000u64 && s >> by == m && (by
            == 0 ==> s << 0u64 == m)) by (bit_vector)
            requires
                top <= 52,
                by == 52 - top,
                m >> top == 1,
                s == m << by,
        ;
        assert(exponent << 52 <= 0x4330_0000_0000_0000u64 && (exponent << 52)
            & 0x000f_ffff_ffff_ffffu64 == 0 && (exponent << 52) >> 52 == exponent) by (bit_vector)
            requires
                1023 <= exponent <= 1075,
        ;
        let high: u64 = exponent << 52;
        let low: u64 = (s - HIDDEN_BIT) as u64;
        assert(body == high + low);
        assert(body & 0x8000_0000_0000_0000u64 == 0 && (body & 0x7fff_ffff_ffff_ffffu64) == body
            && body >> 52 == exponent && (body & 0x000f_ffff_ffff_ffffu64)
            | 0x0010_0000_0000_0000u64 == s && body <= 0x7ff0_0000_0000_0000u64) by (bit_vector)
            requires
                1023 <= exponent <= 1075,
                high == exponent << 52,
                0x0010_0000_0000_0000u64 <= s < 0x0020_0000_0000_0000u64,
                low == s - 0x0010_0000_0000_0000u64,
                body == high + low,
        ;
        assert((sign | body) & 0x7fff_ffff_ffff_ffffu64 == body && (sign | body)
            & 0x8000_0000_0000_0000u64 == sign && (sign | body) & 0x000f_ffff_ffff_ffffu64 == body
            & 0x000f_ffff_ffff_ffffu64) by (bit_vector)
            requires
                sign == 0 || sign == 0x8000_0000_0000_0000u64,
                body & 0x8000_0000_0000_0000u64 == 0,
        ;
        let r = Real::of_integer(x);
        assert(r.bits == bits);
        assert(r.magnitude() == body);
        assert(r.exponent() == exponent);
        assert(r.significand() == s);
    }
}

/// The order of two keys.
pub open spec fn order_of_keys(a: int, b: int) -> Ordering {
    if a < b {
        Ordering::Less
    } else if a == b {
        Ordering::Equal
    } else {
        Ordering::Greater
    }
}

/// The IEEE order of two reals: none where either is NaN, else the order of
/// their keys, so that the two zeros are equal.
pub open spec fn real_order(a: Real, b: Real) -> Option<Ordering> {
    if a.nan() || b.nan() {
        None
    } else {
        Some(order_of_keys(a.key(), b.key()))
    }
}

/// The key of a real that is not NaN, as a machine integer.
fn key_of(x: &Real) -> (r: i64)
    requires
        !x.nan(),
    ensures
        r == x.key(),
{
    let bits: u64 = x.bits;
    let magnitude: u64 = bits & MAGNITUDE_BITS;
    assert(magnitude <= 0x7fff_ffff_ffff_ffffu64) by (bit_vector)
        requires
            magnitude == bits & 0x7fff_ffff_ffff_ffffu64,
    ;
    if (bits & SIGN_BIT) != 0 {
        0i64 - (magnitude as i64)
    } else {
        magnitude as i64
    }
}

/// Compares two reals as IEEE-754 orders them.
pub fn real_partial_order(a: &Real, b: &Real) -> (r: Option<Ordering>)
    ensures
        r == real_order(*a, *b),
{
    if a.is_nan() || b.is_nan() {
        None
    } else {
        let ka: i64 = key_of(a);
        let kb: i64 = key_of(b);
        if ka < kb {
            Some(Ordering::Less)
        } else if ka == kb {
            Some(Ordering::Equal)
        } else {
            Some(Ordering::Greater)
        }
    }
}

} // verus!
