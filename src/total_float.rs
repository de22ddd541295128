use std::cmp::Ordering;
use vstd::prelude::*;

verus! {

/// The sign bit of a binary64 pattern.
pub const SIGN_MASK: u64 = 0x8000_0000_0000_0000;

/// The eleven exponent bits of a binary64 pattern.
pub const EXPONENT_MASK: u64 = 0x7ff0_0000_0000_0000;

/// The 52 mantissa bits of a binary64 pattern.
pub const MANTISSA_MASK: u64 = 0x000f_ffff_ffff_ffff;

/// Everything but the sign bit: the magnitude of the encoded number.
pub const MAGNITUDE_MASK: u64 = 0x7fff_ffff_ffff_ffff;

/// A pattern encodes NaN when its exponent bits are all set and its mantissa
/// is not zero, whatever its sign.
pub open spec fn is_nan_bits(bits: u64) -> bool {
    bits & EXPONENT_MASK == EXPONENT_MASK && bits & MANTISSA_MASK != 0
}

/// The place of a pattern in the total order, as an integer.
///
/// For patterns that are not NaN, IEEE-754 lays the magnitude bits out so that
/// their order as unsigned integers is the order of the absolute values. A
/// number's place is therefore its magnitude bits, negated for a set sign bit;
/// both zeros get place 0. Every NaN gets one place below the least of them.
pub open spec fn rank_of(bits: u64) -> int {
    if is_nan_bits(bits) {
        -(MAGNITUDE_MASK as int) - 1
    } else if bits & SIGN_MASK != 0 {
        -((bits & MAGNITUDE_MASK) as int)
    } else {
        (bits & MAGNITUDE_MASK) as int
    }
}

/// Three-way comparison of two integers.
pub open spec fn compare_ints(a: int, b: int) -> Ordering {
    if a < b {
        Ordering::Less
    } else if a == b {
        Ordering::Equal
    } else {
        Ordering::Greater
    }
}

/// A binary64 value with a total order and a reflexive equality.
///
/// NaN values are equal to each other and strictly less than every other
/// value, negative infinity included.
#[derive(Clone, Copy, Debug)]
pub struct TotalFloat {
    /// The IEEE-754 binary64 encoding of the value.
    pub bits: u64,
}

impl TotalFloat {
    /// Whether the value is a NaN, of any sign and payload.
    pub open spec fn is_nan_spec(self) -> bool {
        is_nan_bits(self.bits)
    }

    /// The value's place in the total order.
    pub open spec fn rank(self) -> int {
        rank_of(self.bits)
    }

    /// The order that `cmp` computes.
    pub open spec fn cmp_spec(self, other: Self) -> Ordering {
        compare_ints(self.rank(), other.rank())
    }

    /// The equality that `==` computes: both NaN, or numerically equal.
    pub open spec fn equals(self, other: Self) -> bool {
        self.rank() == other.rank()
    }

    /// Wraps the value with the given binary64 encoding.
    pub fn from_bits(bits: u64) -> (r: Self)
        ensures
            r.bits == bits,
    {
        TotalFloat { bits }
    }

    /// The binary64 encoding of the value, unchanged.
    pub fn to_bits(self) -> (r: u64)
        ensures
            r == self.bits,
    {
        self.bits
    }

    /// Whether the value is a NaN, of any sign and payload.
    pub fn is_nan(&self) -> (r: bool)
        ensures
            r == self.is_nan_spec(),
    {
        self.bits & EXPONENT_MASK == EXPONENT_MASK && self.bits & MANTISSA_MASK != 0
    }

    /// The value's place among the numbers; meaningful for a value that is not NaN.
    fn signed_magnitude(&self) -> (r: i128)
        requires
            !self.is_nan_spec(),
        ensures
            r as int == self.rank(),
    {
        let magnitude = (self.bits & MAGNITUDE_MASK) as i128;
        if self.bits & SIGN_MASK != 0 {
            -magnitude
        } else {
            magnitude
        }
    }

    /// Total comparison: NaN below everything else, equal to NaN; numbers by value.
    pub fn cmp(&self, other: &Self) -> (r: Ordering)
        ensures
            r == self.cmp_spec(*other),
    {
        match (self.is_nan(), other.is_nan()) {
            (true, true) => Ordering::Equal,
            (true, false) => {
                proof {
                    lemma_nan_rank_is_least(other.bits);
                }
                Ordering::Less
            },
            (false, true) => {
                proof {
                    lemma_nan_rank_is_least(self.bits);
                }
                Ordering::Greater
            },
            (false, false) => {
                let a = self.signed_magnitude();
                let b = other.signed_magnitude();
                if a < b {
                    Ordering::Less
                } else if a == b {
                    Ordering::Equal
                } else {
                    Ordering::Greater
                }
            },
        }
    }
}

impl PartialEq for TotalFloat {
    fn eq(&self, other: &Self) -> (r: bool) {
        let (a, b) = (self.is_nan(), other.is_nan());
        if a || b {
            proof {
                if !a {
                    lemma_nan_rank_is_least(self.bits);
                }
                if !b {
                    lemma_nan_rank_is_least(other.bits);
                }
            }
            a && b
        } else {
            self.signed_magnitude() == other.signed_magnitude()
        }
    }
}

impl vstd::std_specs::cmp::PartialEqSpecImpl for TotalFloat {
    open spec fn obeys_eq_spec() -> bool {
        true
    }

    open spec fn eq_spec(&self, other: &Self) -> bool {
        self.equals(*other)
    }
}

impl Eq for TotalFloat {

}

impl PartialOrd for TotalFloat {
    /// Always some ordering: the order is total.
    fn partial_cmp(&self, other: &Self) -> (r: Option<Ordering>) {
        Some(self.cmp(other))
    }
}

impl vstd::std_specs::cmp::PartialOrdSpecImpl for TotalFloat {
    open spec fn obeys_partial_cmp_spec() -> bool {
        true
    }

    open spec fn partial_cmp_spec(&self, other: &Self) -> Option<Ordering> {
        Some(self.cmp_spec(*other))
    }
}

/// The comparison is a total order: every pair gets exactly one answer, the
/// answers of swapped arguments mirror each other, `Equal` is the equality
/// that `==` computes, and "not greater" is transitive.
pub proof fn lemma_cmp_total_order(a: TotalFloat, b: TotalFloat, c: TotalFloat)
    ensures
        a.cmp_spec(b) == Ordering::Less || a.cmp_spec(b) == Ordering::Equal || a.cmp_spec(b)
            == Ordering::Greater,
        a.cmp_spec(a) == Ordering::Equal,
        a.cmp_spec(b) == Ordering::Equal <==> a.equals(b),
        a.cmp_spec(b) == Ordering::Less <==> b.cmp_spec(a) == Ordering::Greater,
        a.cmp_spec(b) == Ordering::Equal <==> b.cmp_spec(a) == Ordering::Equal,
        a.cmp_spec(b) != Ordering::Greater && b.cmp_spec(c) != Ordering::Greater ==> a.cmp_spec(c)
            != Ordering::Greater,
        a.cmp_spec(b) == Ordering::Less && b.cmp_spec(c) != Ordering::Greater ==> a.cmp_spec(c)
            == Ordering::Less,
{
}

/// Any two NaN values are equal, whatever their sign and payload bits.
pub proof fn lemma_nans_equal(a: TotalFloat, b: TotalFloat)
    requires
        a.is_nan_spec(),
        b.is_nan_spec(),
    ensures
        a.equals(b),
        a.cmp_spec(b) == Ordering::Equal,
{
}

/// NaN is less than every value that is not NaN, negative infinity included.
pub proof fn lemma_nan_is_least(nan: TotalFloat, x: TotalFloat)
    requires
        nan.is_nan_spec(),
        !x.is_nan_spec(),
    ensures
        nan.cmp_spec(x) == Ordering::Less,
        x.cmp_spec(nan) == Ordering::Greater,
{
    lemma_nan_rank_is_least(x.bits);
}

/// `-0.0` equals `0.0`, and the two compare alike against every value, so a
/// sort puts them at the same place among the others.
pub proof fn lemma_signed_zeros(neg_zero: TotalFloat, pos_zero: TotalFloat, x: TotalFloat)
    requires
        neg_zero.bits == SIGN_MASK,
        pos_zero.bits == 0,
    ensures
        neg_zero.equals(pos_zero),
        neg_zero.cmp_spec(x) == pos_zero.cmp_spec(x),
        x.cmp_spec(neg_zero) == x.cmp_spec(pos_zero),
{
    let (n, p) = (neg_zero.bits, pos_zero.bits);
    assert(n == 0x8000_0000_0000_0000u64 ==> (n & 0x7ff0_0000_0000_0000u64 != 0x7ff0_0000_0000_0000u64
        && n & 0x7fff_ffff_ffff_ffffu64 == 0 && n & 0x8000_0000_0000_0000u64 != 0)) by (bit_vector);
    assert(p == 0 ==> (p & 0x7ff0_0000_0000_0000u64 != 0x7ff0_0000_0000_0000u64
        && p & 0x7fff_ffff_ffff_ffffu64 == 0)) by (bit_vector);
}

/// A value that is not NaN ranks above every NaN.
pub proof fn lemma_nan_rank_is_least(bits: u64)
    requires
        !is_nan_bits(bits),
    ensures
        rank_of(bits) > -(MAGNITUDE_MASK as int) - 1,
{
    assert(bits & MAGNITUDE_MASK <= MAGNITUDE_MASK) by (bit_vector);
}

} // verus!
