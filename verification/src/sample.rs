//! Decoded samples, held as the bit patterns of binary32 numbers.

use vstd::prelude::*;

verus! {

/// The bit that is set in the pattern of a negative number.
pub const SIGN: u32 = 0x8000_0000;

/// The pattern of positive infinity; only the patterns of what is not a number
/// have a greater magnitude.
pub const INFINITY: u32 = 0x7F80_0000;

/// One sample of sound: a binary32 number, by its bit pattern.
#[derive(Clone, Copy, Debug, PartialEq, Eq, Structural)]
pub struct Sample {
    pub bits: u32,
}

impl Sample {
    /// The pattern without its sign.
    pub open spec fn magnitude(self) -> int {
        if self.bits >= SIGN {
            self.bits - SIGN
        } else {
            self.bits as int
        }
    }

    /// Whether the pattern stands for a number or an infinity.
    pub open spec fn is_number(self) -> bool {
        self.magnitude() <= INFINITY
    }

    /// A whole number that orders samples as the numbers they stand for are
    /// ordered; both zeros have rank zero.
    pub open spec fn rank(self) -> int {
        if self.bits >= SIGN {
            -self.magnitude()
        } else {
            self.magnitude()
        }
    }

    /// Positive zero.
    pub fn zero() -> (sample: Sample)
        ensures
            sample.bits == 0,
    {
        Sample { bits: 0 }
    }

    /// The pattern without its sign.
    fn unsigned(self) -> (magnitude: u32)
        ensures
            magnitude == self.magnitude(),
    {
        if self.bits >= SIGN {
            self.bits - SIGN
        } else {
            self.bits
        }
    }

    /// Whether the pattern stands for a number or an infinity.
    pub fn number(self) -> (number: bool)
        ensures
            number == self.is_number(),
    {
        self.unsigned() <= INFINITY
    }

    /// A whole number that orders samples as the numbers they stand for.
    fn order(self) -> (rank: i64)
        ensures
            rank == self.rank(),
    {
        if self.bits >= SIGN {
            -((self.bits - SIGN) as i64)
        } else {
            self.bits as i64
        }
    }

    /// The lesser of two samples. One that is not a number gives way to the other;
    /// of two equal ones, this one is kept.
    pub fn min(self, other: Sample) -> (least: Sample)
        ensures
            least == lesser(self, other),
    {
        if !self.number() || (other.number() && other.order() < self.order()) {
            other
        } else {
            self
        }
    }

    /// The greater of two samples. One that is not a number gives way to the other;
    /// of two equal ones, this one is kept.
    pub fn max(self, other: Sample) -> (greatest: Sample)
        ensures
            greatest == greater(self, other),
    {
        if !self.number() || (other.number() && other.order() > self.order()) {
            other
        } else {
            self
        }
    }

    /// Whether the magnitude of this sample reaches that of `threshold`.
    pub fn reaches(self, threshold: Sample) -> (reached: bool)
        ensures
            reached == self.is_at_least(threshold),
    {
        self.number() && threshold.number() && self.unsigned() as i64 >= threshold.order()
    }

    /// Whether the magnitude of this sample is not less than `threshold`; what is
    /// not a number reaches nothing.
    pub open spec fn is_at_least(self, threshold: Sample) -> bool {
        self.is_number() && threshold.is_number() && self.magnitude() >= threshold.rank()
    }
}

/// The lesser of two samples, where what is not a number gives way.
pub open spec fn lesser(a: Sample, b: Sample) -> Sample {
    if !a.is_number() || (b.is_number() && b.rank() < a.rank()) {
        b
    } else {
        a
    }
}

/// The greater of two samples, where what is not a number gives way.
pub open spec fn greater(a: Sample, b: Sample) -> Sample {
    if !a.is_number() || (b.is_number() && b.rank() > a.rank()) {
        b
    } else {
        a
    }
}

/// Samples compare as the numbers that their patterns stand for: of two that are not below
/// zero the one with the greater pattern is the greater, of two below zero the one with the
/// lesser pattern, and what is below zero is less than what is not. The zeros are equal, and
/// of equal samples the first is kept. What is no number gives way.
pub proof fn law_samples_compare_as_numbers(a: Sample, b: Sample)
    ensures
        a.bits <= b.bits <= 0x7F80_0000 ==> lesser(a, b) == a && greater(a, b) == b && lesser(b, a)
            == a && greater(b, a) == b,
        0x8000_0000 <= a.bits <= b.bits <= 0xFF80_0000 ==> lesser(a, b) == b && greater(a, b) == a
            && lesser(b, a) == b && greater(b, a) == a,
        a.bits <= 0x7F80_0000 && 0x8000_0000 < b.bits <= 0xFF80_0000 ==> lesser(a, b) == b
            && greater(a, b) == a && lesser(b, a) == b && greater(b, a) == a,
        0 < a.bits <= 0x7F80_0000 && b.bits == 0x8000_0000 ==> lesser(a, b) == b && greater(a, b)
            == a && lesser(b, a) == b && greater(b, a) == a,
        a.bits == 0 && b.bits == 0x8000_0000 ==> lesser(a, b) == a && greater(a, b) == a
            && lesser(b, a) == b && greater(b, a) == b,
        0x7F80_0000 < a.bits < 0x8000_0000 || 0xFF80_0000 < a.bits ==> lesser(a, b) == b && greater(
            a,
            b,
        ) == b,
        (0x7F80_0000 < a.bits < 0x8000_0000 || 0xFF80_0000 < a.bits) && b.is_number() ==> lesser(
            b,
            a,
        ) == b && greater(b, a) == b,
{
}

/// A sample reaches a threshold that is not below zero exactly where its pattern without the
/// sign is not less than that of the threshold. Each number reaches a threshold below zero,
/// and what is no number neither reaches nor is reached.
pub proof fn law_samples_reach_by_magnitude(sample: Sample, threshold: Sample)
    ensures
        threshold.bits <= 0x7F80_0000 ==> (sample.is_at_least(threshold) <==> threshold.bits
            <= sample.bits <= 0x7F80_0000 || 0x8000_0000 + threshold.bits <= sample.bits
            <= 0xFF80_0000),
        0x8000_0000 <= threshold.bits <= 0xFF80_0000 ==> (sample.is_at_least(threshold)
            <==> sample.bits <= 0x7F80_0000 || 0x8000_0000 <= sample.bits <= 0xFF80_0000),
        0x7F80_0000 < threshold.bits < 0x8000_0000 || 0xFF80_0000 < threshold.bits
            ==> !sample.is_at_least(threshold),
{
}

} // verus!
