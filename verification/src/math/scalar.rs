//! IEEE-754 binary32 values, held by their 32-bit encodings.
//!
//! The encoding has a sign bit, eight exponent bits and twenty-three fraction
//! bits. Read without its sign bit it is the value's `magnitude`; magnitudes
//! above that of infinity encode NaN. Among the other values the signed
//! magnitude (`rank`) orders exactly as the values themselves do, with both
//! zeros at rank zero.
use vstd::arithmetic::div_mod::{lemma_div_is_ordered, lemma_fundamental_div_mod, lemma_mod_bound};
use vstd::arithmetic::power2::{
    lemma2_to64, lemma_pow2_adds, lemma_pow2_pos, lemma_pow2_strictly_increases, pow2,
};
use vstd::prelude::*;

verus! {

/// The encoding's sign bit.
pub const SIGN_BIT: u32 = 0x8000_0000;

/// The magnitude of an infinity; every larger magnitude encodes NaN.
pub const INFINITY_BITS: u32 = 0x7f80_0000;

/// Two to the number of fraction bits: the weight of the exponent field in a
/// magnitude, and the implicit leading bit of a normal significand.
pub const FRACTION_SPAN: u32 = 0x80_0000;

/// A binary32 number held by its encoding. `==` compares encodings, so it
/// tells the two zeros apart and finds a NaN equal to itself; the numeric
/// comparisons are `lt` and `gt`.
#[derive(Clone, Copy, Debug, PartialEq, Eq, Structural)]
pub struct Scalar {
    pub bits: u32,
}

impl Scalar {
    /// Whether the sign bit is set.
    pub open spec fn sign_negative(self) -> bool {
        self.bits >= SIGN_BIT
    }

    /// The encoding without its sign bit.
    pub open spec fn magnitude(self) -> nat {
        if self.bits >= SIGN_BIT {
            (self.bits - SIGN_BIT) as nat
        } else {
            self.bits as nat
        }
    }

    /// Whether the encoding is a NaN.
    pub open spec fn nan(self) -> bool {
        self.magnitude() > INFINITY_BITS
    }

    /// Whether the encoding is zero, subnormal or normal.
    pub open spec fn finite(self) -> bool {
        self.magnitude() < INFINITY_BITS
    }

    /// The eight exponent bits.
    pub open spec fn exponent_field(self) -> nat {
        self.magnitude() / (FRACTION_SPAN as nat)
    }

    /// The twenty-three fraction bits.
    pub open spec fn fraction_field(self) -> nat {
        self.magnitude() % (FRACTION_SPAN as nat)
    }

    /// The significand as a whole number: the fraction bits, below an implicit
    /// leading one unless the exponent field is zero.
    pub open spec fn significand(self) -> nat {
        if self.exponent_field() == 0 {
            self.fraction_field()
        } else {
            FRACTION_SPAN as nat + self.fraction_field()
        }
    }

    /// The binary exponent of the significand's lowest bit, counted from that
    /// of the smallest subnormal (two to the -149).
    pub open spec fn shift(self) -> nat {
        if self.exponent_field() == 0 {
            0
        } else {
            (self.exponent_field() - 1) as nat
        }
    }

    /// The absolute value of a finite number, as a whole number of the
    /// smallest unit: the absolute value times two to the 149.
    pub open spec fn size(self) -> nat
        recommends
            self.finite(),
    {
        self.significand() * pow2(self.shift())
    }

    /// A finite value, as a whole number of the smallest unit: the value
    /// times two to the 149.
    pub open spec fn units(self) -> int
        recommends
            self.finite(),
    {
        if self.sign_negative() {
            -(self.size() as int)
        } else {
            self.size() as int
        }
    }

    /// The signed magnitude, which orders the values that are not NaN.
    pub open spec fn rank(self) -> int {
        if self.sign_negative() {
            -(self.magnitude() as int)
        } else {
            self.magnitude() as int
        }
    }

    /// Numeric `<`: false whenever either side is NaN.
    pub open spec fn lt_spec(self, other: Scalar) -> bool {
        !self.nan() && !other.nan() && self.rank() < other.rank()
    }

    /// Numeric `<=`: false whenever either side is NaN.
    pub open spec fn le_spec(self, other: Scalar) -> bool {
        !self.nan() && !other.nan() && self.rank() <= other.rank()
    }

    /// The value with its sign flipped; defined on every encoding.
    pub open spec fn neg_spec(self) -> Scalar {
        if self.bits >= SIGN_BIT {
            Scalar { bits: (self.bits - SIGN_BIT) as u32 }
        } else {
            Scalar { bits: (self.bits + SIGN_BIT) as u32 }
        }
    }

    /// The scalar with the given encoding.
    pub fn from_bits(bits: u32) -> (r: Scalar)
        ensures
            r.bits == bits,
    {
        Scalar { bits }
    }

    /// The encoding.
    pub fn to_bits(self) -> (r: u32)
        ensures
            r == self.bits,
    {
        self.bits
    }

    /// Positive zero.
    pub fn zero() -> (r: Scalar)
        ensures
            r.bits == 0,
    {
        Scalar { bits: 0 }
    }

    /// Positive infinity.
    pub fn infinity() -> (r: Scalar)
        ensures
            r.bits == INFINITY_BITS,
    {
        Scalar { bits: INFINITY_BITS }
    }

    /// Whether the value is a NaN.
    pub fn is_nan(self) -> (r: bool)
        ensures
            r == self.nan(),
    {
        let magnitude: u32 = self.bits & 0x7fff_ffff;
        assert(magnitude == self.magnitude()) by {
            let b = self.bits;
            assert(b & 0x7fff_ffff == if b >= 0x8000_0000 {
                (b - 0x8000_0000) as u32
            } else {
                b
            }) by (bit_vector);
        }
        magnitude > INFINITY_BITS
    }

    /// Numeric `self < other`.
    pub fn lt(self, other: Scalar) -> (r: bool)
        ensures
            r == self.lt_spec(other),
    {
        if self.is_nan() || other.is_nan() {
            return false;
        }
        let a: u32 = self.bits;
        let b: u32 = other.bits;
        if a >= SIGN_BIT {
            if b >= SIGN_BIT {
                // both carry the sign: the larger magnitude is the smaller value
                a > b
            } else {
                // a zero of either sign is not below a zero
                a > SIGN_BIT || b > 0
            }
        } else {
            b < SIGN_BIT && a < b
        }
    }

    /// Numeric `self > other`.
    pub fn gt(self, other: Scalar) -> (r: bool)
        ensures
            r == other.lt_spec(self),
    {
        other.lt(self)
    }

    /// The value with its sign flipped.
    pub fn neg(self) -> (r: Scalar)
        ensures
            r == self.neg_spec(),
    {
        let bits: u32 = self.bits ^ SIGN_BIT;
        assert(bits == self.neg_spec().bits) by {
            let b = self.bits;
            assert(b ^ 0x8000_0000 == if b >= 0x8000_0000 {
                (b - 0x8000_0000) as u32
            } else {
                (b + 0x8000_0000) as u32
            }) by (bit_vector);
        }
        Scalar { bits }
    }
}

/// Of two finite numbers, the one with the larger magnitude has the larger
/// absolute value.
pub proof fn lemma_size_grows_with_magnitude(a: Scalar, b: Scalar)
    requires
        a.magnitude() < b.magnitude(),
        b.finite(),
    ensures
        a.size() < b.size(),
{
    let span = FRACTION_SPAN as int;
    let (p, q) = (a.magnitude() as int, b.magnitude() as int);
    lemma_fundamental_div_mod(p, span);
    lemma_fundamental_div_mod(q, span);
    lemma_mod_bound(p, span);
    lemma_mod_bound(q, span);
    lemma_div_is_ordered(p, q, span);
    let (ea, eb) = (a.exponent_field(), b.exponent_field());
    let (sa, sb) = (a.significand() as int, b.significand() as int);
    let (wa, wb) = (pow2(a.shift()) as int, pow2(b.shift()) as int);
    lemma_pow2_pos(a.shift());
    lemma_pow2_pos(b.shift());
    lemma2_to64();
    if ea == eb {
        assert(sa < sb);
        assert(sa * wa < sb * wb) by (nonlinear_arith)
            requires
                0 <= sa < sb,
                wa == wb,
                0 < wb,
        ;
    } else {
        assert(ea < eb);
        // the smaller number is below two to its exponent, the larger is at
        // or above two to its own
        if ea == 0 {
            assert(sa * wa < span) by (nonlinear_arith)
                requires
                    0 <= sa < span,
                    wa == 1,
            ;
        } else {
            lemma_pow2_adds(1, a.shift());
            if a.shift() + 1 < b.shift() {
                lemma_pow2_strictly_increases(a.shift() + 1, b.shift());
            }
            assert(sa * wa < span * wb) by (nonlinear_arith)
                requires
                    0 <= sa < 2 * span,
                    0 < wa,
                    2 * wa <= wb,
            ;
        }
        assert(span * wb <= sb * wb) by (nonlinear_arith)
            requires
                span <= sb,
                0 < wb,
        ;
        assert(span <= span * wb) by (nonlinear_arith)
            requires
                0 < span,
                1 <= wb,
        ;
    }
}

/// Among finite numbers, ranks order exactly as the values do: `lt_spec` is
/// the order of the numbers themselves, and equal ranks are equal values.
pub proof fn lemma_rank_orders_values(a: Scalar, b: Scalar)
    requires
        a.finite(),
        b.finite(),
    ensures
        a.rank() < b.rank() <==> a.units() < b.units(),
        a.rank() == b.rank() <==> a.units() == b.units(),
{
    let zero = Scalar { bits: 0 };
    assert(zero.size() == 0) by {
        assert(zero.exponent_field() == 0 && zero.fraction_field() == 0);
        assert(zero.size() == 0 * pow2(0));
    }
    if a.magnitude() > 0 {
        lemma_size_grows_with_magnitude(zero, a);
    } else {
        assert(a.size() == zero.size());
    }
    if b.magnitude() > 0 {
        lemma_size_grows_with_magnitude(zero, b);
    } else {
        assert(b.size() == zero.size());
    }
    if a.magnitude() < b.magnitude() {
        lemma_size_grows_with_magnitude(a, b);
    } else if b.magnitude() < a.magnitude() {
        lemma_size_grows_with_magnitude(b, a);
    } else {
        assert(a.size() == b.size());
    }
}

} // verus!
