//! IEEE-754 binary64 numbers by their bit pattern: enough to carry, compare and
//! negate them. Arithmetic on them is not here.
use vstd::arithmetic::power2::{lemma2_to64, lemma2_to64_rest, lemma_pow2_unfold, pow2};
use vstd::prelude::*;

verus! {

/// Bit pattern of the sign bit alone, that is of `-0.0`.
pub const SIGN: u64 = 0x8000_0000_0000_0000;

/// Bit pattern of positive infinity.
pub const INFINITY_BITS: u64 = 0x7FF0_0000_0000_0000;

/// A binary64 number, held as its bit pattern.
#[derive(Clone, Copy, Debug, PartialEq, Eq, Structural)]
pub struct Double {
    /// The bit pattern.
    pub bits: u64,
}

/// Bit pattern of `0.001`.
pub const MILLI_BITS: u64 = 0x3F50_624D_D2F1_A9FC;

/// Bit pattern of `0.000001`.
pub const MICRO_BITS: u64 = 0x3EB0_C6F7_A0B5_ED8D;

impl Double {
    /// Whether the sign bit is set.
    pub open spec fn negative(self) -> bool {
        self.bits >= SIGN
    }

    /// The bits below the sign bit, which grow with the absolute value.
    pub open spec fn magnitude(self) -> int {
        if self.negative() {
            self.bits - SIGN
        } else {
            self.bits as int
        }
    }

    /// Not a number: all exponent bits set and a fraction that is not zero.
    pub open spec fn nan(self) -> bool {
        self.magnitude() > INFINITY_BITS
    }

    /// Neither infinite nor not a number.
    pub open spec fn finite(self) -> bool {
        self.magnitude() < INFINITY_BITS
    }

    /// A position on the integer line that orders numbers as IEEE-754 does; both
    /// zeros are at 0.
    pub open spec fn rank(self) -> int {
        if self.negative() {
            -self.magnitude()
        } else {
            self.magnitude()
        }
    }

    /// `a < b` of IEEE-754: false when either is not a number.
    pub open spec fn lt(self, other: Double) -> bool {
        !self.nan() && !other.nan() && self.rank() < other.rank()
    }

    /// `a <= b` of IEEE-754: false when either is not a number.
    pub open spec fn le(self, other: Double) -> bool {
        !self.nan() && !other.nan() && self.rank() <= other.rank()
    }

    /// `a == b` of IEEE-754: false when either is not a number, true of the two
    /// zeros.
    pub open spec fn same(self, other: Double) -> bool {
        !self.nan() && !other.nan() && self.rank() == other.rank()
    }

    /// `-a`: the sign bit flipped.
    pub open spec fn negated(self) -> Double {
        Double {
            bits: if self.negative() {
                (self.bits - SIGN) as u64
            } else {
                (self.bits + SIGN) as u64
            },
        }
    }

    /// Without its sign, this is the number next to `num / den`: the fraction times
    /// two to the exponent is off by half a unit in the last place at most.
    pub open spec fn reads(self, num: nat, den: nat) -> bool {
        let exponent = self.magnitude() / 0x10_0000_0000_0000;
        let significand = 0x10_0000_0000_0000 + self.magnitude() % 0x10_0000_0000_0000;
        let scaled = num * pow2((1075 - exponent) as nat);
        &&& 0 < exponent <= 1075
        &&& scaled * 2 - den <= significand * den * 2 <= scaled * 2 + den
    }

    /// The number with this bit pattern.
    pub fn from_bits(bits: u64) -> (res: Double)
        ensures
            res.bits == bits,
    {
        Double { bits }
    }

    /// The bit pattern of this number.
    pub fn to_bits(self) -> (res: u64)
        ensures
            res == self.bits,
    {
        self.bits
    }

    /// `+0.0`.
    pub open spec fn spec_zero() -> Double {
        Double { bits: 0 }
    }

    /// `+0.0`.
    #[verifier::when_used_as_spec(spec_zero)]
    pub fn zero() -> (res: Double)
        ensures
            res == Double::spec_zero(),
    {
        Double { bits: 0 }
    }

    fn exec_magnitude(self) -> (res: u64)
        ensures
            res == self.magnitude(),
    {
        if self.bits >= SIGN {
            self.bits - SIGN
        } else {
            self.bits
        }
    }

    fn exec_rank(self) -> (res: i128)
        ensures
            res == self.rank(),
    {
        if self.bits >= SIGN {
            -((self.bits - SIGN) as i128)
        } else {
            self.bits as i128
        }
    }

    /// Whether this is not a number.
    pub fn is_nan(self) -> (res: bool)
        ensures
            res == self.nan(),
    {
        self.exec_magnitude() > INFINITY_BITS
    }

    /// Whether this is neither infinite nor not a number.
    pub fn is_finite(self) -> (res: bool)
        ensures
            res == self.finite(),
    {
        self.exec_magnitude() < INFINITY_BITS
    }

    /// Whether `self < other`.
    pub fn is_less(self, other: Double) -> (res: bool)
        ensures
            res == self.lt(other),
    {
        !self.is_nan() && !other.is_nan() && self.exec_rank() < other.exec_rank()
    }

    /// Whether `self <= other`.
    pub fn is_at_most(self, other: Double) -> (res: bool)
        ensures
            res == self.le(other),
    {
        !self.is_nan() && !other.is_nan() && self.exec_rank() <= other.exec_rank()
    }

    /// Whether this stands at or before `other` on the line of [`Double::rank`].
    pub fn ranks_at_most(self, other: Double) -> (res: bool)
        ensures
            res == (self.rank() <= other.rank()),
    {
        self.exec_rank() <= other.exec_rank()
    }

    /// Whether `self == other` as numbers.
    pub fn is_same(self, other: Double) -> (res: bool)
        ensures
            res == self.same(other),
    {
        !self.is_nan() && !other.is_nan() && self.exec_rank() == other.exec_rank()
    }

    /// Whether `self > 0.0`.
    pub fn is_positive(self) -> (res: bool)
        ensures
            res == Double::zero().lt(self),
    {
        Double::zero().is_less(self)
    }

    /// `-self`.
    pub fn negate(self) -> (res: Double)
        ensures
            res == self.negated(),
    {
        if self.bits >= SIGN {
            Double { bits: self.bits - SIGN }
        } else {
            Double { bits: self.bits + SIGN }
        }
    }
}

/// `<` is transitive and irreflexive, and among numbers exactly one of `a < b`,
/// `b < a` and `a == b` holds.
pub proof fn law_order(a: Double, b: Double, c: Double)
    ensures
        !a.lt(a),
        a.lt(b) && b.lt(c) ==> a.lt(c),
        a.le(b) <==> a.lt(b) || a.same(b),
        !a.nan() && !b.nan() ==> (a.lt(b) || b.lt(a) || a.same(b)),
        !(a.lt(b) && b.lt(a)) && !(a.lt(b) && a.same(b)),
{
}

/// Negation undoes itself, keeps finiteness and reverses the order.
pub proof fn law_negation(a: Double, b: Double)
    ensures
        a.negated().negated() == a,
        a.negated().finite() == a.finite(),
        a.negated().nan() == a.nan(),
        a.lt(b) <==> b.negated().lt(a.negated()),
{
}

/// Numbers without a sign order as their bit patterns, numbers with one the other way
/// round, and those below zero come before those above. What is not a number compares
/// with nothing.
pub proof fn law_order_is_that_of_the_numbers(a: Double, b: Double)
    ensures
        a.bits < SIGN && b.bits < SIGN && !a.nan() && !b.nan() ==> (a.lt(b) <==> a.bits < b.bits),
        a.bits > SIGN && b.bits > SIGN && !a.nan() && !b.nan() ==> (a.lt(b) <==> b.bits < a.bits),
        a.bits > SIGN && b.bits < SIGN && !a.nan() && !b.nan() ==> a.lt(b),
        a.nan() || b.nan() ==> !a.lt(b) && !a.le(b) && !a.same(b),
        a.nan() <==> a.bits % SIGN > 0x7FF0_0000_0000_0000,
        a.finite() <==> a.bits % SIGN < 0x7FF0_0000_0000_0000,
        a.bits % SIGN == 0 && b.bits % SIGN == 0 ==> a.same(b),
        a.bits < SIGN ==> a.rank() == a.bits,
        a.bits >= SIGN ==> a.rank() + a.bits == SIGN,
{
}

/// Negation only changes the sign.
pub proof fn law_negation_changes_the_sign(a: Double)
    ensures
        a.negated().magnitude() == a.magnitude(),
        a.negated().negative() != a.negative(),
        !a.nan() && a.magnitude() > 0 ==> (a.lt(Double::zero()) <==> Double::zero().lt(a.negated())),
{
}

/// The powers of two that decimals are read with.
pub(crate) proof fn lemma_powers()
    ensures
        pow2(39) == 0x8000000000,
        pow2(40) == 0x10000000000,
        pow2(41) == 0x20000000000,
        pow2(42) == 0x40000000000,
        pow2(43) == 0x80000000000,
        pow2(44) == 0x100000000000,
        pow2(45) == 0x200000000000,
        pow2(46) == 0x400000000000,
        pow2(47) == 0x800000000000,
        pow2(48) == 0x1000000000000,
        pow2(49) == 0x2000000000000,
        pow2(50) == 0x4000000000000,
        pow2(51) == 0x8000000000000,
        pow2(52) == 0x10000000000000,
        pow2(53) == 0x20000000000000,
        pow2(54) == 0x40000000000000,
        pow2(55) == 0x80000000000000,
        pow2(56) == 0x100000000000000,
        pow2(57) == 0x200000000000000,
        pow2(58) == 0x400000000000000,
        pow2(59) == 0x800000000000000,
        pow2(60) == 0x1000000000000000,
        pow2(61) == 0x2000000000000000,
        pow2(62) == 0x4000000000000000,
        pow2(63) == 0x8000000000000000,
        pow2(64) == 0x10000000000000000,
        pow2(65) == 0x20000000000000000,
        pow2(66) == 0x40000000000000000,
        pow2(67) == 0x80000000000000000,
        pow2(68) == 0x100000000000000000,
        pow2(69) == 0x200000000000000000,
        pow2(70) == 0x400000000000000000,
        pow2(71) == 0x800000000000000000,
        pow2(72) == 0x1000000000000000000,
        pow2(73) == 0x2000000000000000000,
        pow2(74) == 0x4000000000000000000,
        pow2(75) == 0x8000000000000000000,
{
    lemma2_to64();
    lemma2_to64_rest();
    lemma_pow2_unfold(65);
    lemma_pow2_unfold(66);
    lemma_pow2_unfold(67);
    lemma_pow2_unfold(68);
    lemma_pow2_unfold(69);
    lemma_pow2_unfold(70);
    lemma_pow2_unfold(71);
    lemma_pow2_unfold(72);
    lemma_pow2_unfold(73);
    lemma_pow2_unfold(74);
    lemma_pow2_unfold(75);
}

/// The units are a thousandth and a millionth.
pub proof fn law_units_in_decimals()
    ensures
        (Double { bits: MILLI_BITS }).reads(1, 1000),
        !(Double { bits: MILLI_BITS }).negative(),
        (Double { bits: MICRO_BITS }).reads(1, 1000000),
        !(Double { bits: MICRO_BITS }).negative(),
{
    lemma_powers();
}

} // verus!
