//! A measured quantity as the checks of this library read it: the value itself, carried unread,
//! and the class of the value, which is all that a check of "positive and finite" or "finite and
//! not negative" reads.
//!
//! The physical models are floating point, so the library never computes with a value: it keeps
//! it in whatever type the caller measures in, and decides from its [`Sign`].

use vstd::prelude::*;

verus! {

/// The class of a measured value: not a number, an infinity, or the sign of a finite value.
#[derive(Debug, Clone, Copy, PartialEq, Eq, Hash, Structural)]
pub enum Sign {
    /// Not a number.
    NotANumber,
    /// Negative infinity.
    NegativeInfinity,
    /// A finite value below zero.
    Negative,
    /// Zero, of either sign.
    Zero,
    /// A finite value above zero.
    Positive,
    /// Positive infinity.
    PositiveInfinity,
}

impl Sign {
    /// Whether the value is finite.
    pub open spec fn finite(self) -> bool {
        self is Negative || self is Zero || self is Positive
    }

    /// Whether the value is finite and above zero.
    pub open spec fn positive_and_finite(self) -> bool {
        self is Positive
    }

    /// Whether the value is finite and not below zero.
    pub open spec fn finite_and_not_negative(self) -> bool {
        self is Zero || self is Positive
    }

    /// Whether the value compares above zero: a finite positive value or positive infinity.
    pub open spec fn above_zero(self) -> bool {
        self is Positive || self is PositiveInfinity
    }

    /// Whether the value is finite.
    pub fn is_finite(&self) -> (b: bool)
        ensures
            b == self.finite(),
    {
        matches!(self, Sign::Negative | Sign::Zero | Sign::Positive)
    }

    /// Whether the value is finite and above zero.
    pub fn is_positive_and_finite(&self) -> (b: bool)
        ensures
            b == self.positive_and_finite(),
    {
        matches!(self, Sign::Positive)
    }

    /// Whether the value is finite and not below zero.
    pub fn is_finite_and_not_negative(&self) -> (b: bool)
        ensures
            b == self.finite_and_not_negative(),
    {
        matches!(self, Sign::Zero | Sign::Positive)
    }

    /// Whether the value compares above zero.
    pub fn is_above_zero(&self) -> (b: bool)
        ensures
            b == self.above_zero(),
    {
        matches!(self, Sign::Positive | Sign::PositiveInfinity)
    }
}

/// A measured value and its class.
#[derive(Debug, Clone, Copy, PartialEq, Eq, Hash)]
pub struct Quantity<Q> {
    /// The value, in the caller's type.
    pub value: Q,
    /// Its class.
    pub sign: Sign,
}

/// A measured value with the integer by which it is told from others: two values are the same
/// where their keys are. For a float, the key is its bits, which a total order sees equal just
/// where they are equal.
#[derive(Debug, Clone, Copy, PartialEq, Eq, Hash)]
pub struct Keyed<Q> {
    /// The value, in the caller's type.
    pub value: Q,
    /// Its key.
    pub key: u64,
}

/// The checks read a class as its name says: finite are the negative, zero and positive
/// values; positive and finite the positive ones alone; finite and not negative zero and the
/// positive values; above zero the positive values and positive infinity.
pub proof fn lemma_classes_read_as_named(s: Sign)
    ensures
        s.finite() <==> (s is Negative || s is Zero || s is Positive),
        s.positive_and_finite() <==> s is Positive,
        s.finite_and_not_negative() <==> (s is Zero || s is Positive),
        s.above_zero() <==> (s is Positive || s is PositiveInfinity),
{
}

} // verus!
