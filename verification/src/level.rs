//! Measured levels, held as the bit patterns of binary64 numbers.

use vstd::prelude::*;

verus! {

/// The bit that is set in the pattern of a negative number.
pub const SIGN: u64 = 0x8000_0000_0000_0000;

/// The pattern of positive infinity; only the patterns of what is not a number
/// have a greater magnitude.
pub const INFINITY: u64 = 0x7FF0_0000_0000_0000;

/// A measured level: a binary64 number, by its bit pattern.
#[derive(Clone, Copy, Debug, PartialEq, Eq, Structural)]
pub struct Level {
    pub bits: u64,
}

impl Level {
    /// The pattern without its sign.
    pub open spec fn magnitude(self) -> int {
        if self.bits >= SIGN {
            self.bits - SIGN
        } else {
            self.bits as int
        }
    }

    /// Whether the pattern stands for a number or an infinity.
    pub open spec fn is_number(self) -> bool {
        self.magnitude() <= INFINITY
    }

    /// Whether the pattern stands for a number.
    pub open spec fn is_finite_number(self) -> bool {
        self.magnitude() < INFINITY
    }

    /// A whole number that orders levels as the numbers they stand for are ordered;
    /// both zeros have rank zero.
    pub open spec fn rank(self) -> int {
        if self.bits >= SIGN {
            -self.magnitude()
        } else {
            self.magnitude()
        }
    }

    /// Whether the level is below another. What is not a number is below nothing, and
    /// nothing is below it.
    pub open spec fn is_less(self, other: Level) -> bool {
        self.is_number() && other.is_number() && self.rank() < other.rank()
    }

    /// Whether the level can be written in decibels: it is a positive number.
    pub open spec fn has_decibels(self) -> bool {
        self.is_finite_number() && self.rank() > 0
    }

    /// The pattern without its sign.
    fn unsigned(self) -> (magnitude: u64)
        ensures
            magnitude == self.magnitude(),
    {
        if self.bits >= SIGN {
            self.bits - SIGN
        } else {
            self.bits
        }
    }

    /// Whether the pattern stands for a number.
    pub fn is_finite(self) -> (finite: bool)
        ensures
            finite == self.is_finite_number(),
    {
        self.unsigned() < INFINITY
    }

    /// Whether the level can be written in decibels.
    pub fn is_positive(self) -> (positive: bool)
        ensures
            positive == self.has_decibels(),
    {
        0 < self.bits && self.bits < INFINITY
    }

    /// Whether the level is below another.
    pub fn is_below(self, other: Level) -> (below: bool)
        ensures
            below == self.is_less(other),
    {
        self.unsigned() <= INFINITY && other.unsigned() <= INFINITY && self.order()
            < other.order()
    }

    /// The greater of two levels. One that is not a number gives way to the other; of
    /// two equal ones, this one is kept.
    pub fn max(self, other: Level) -> (greatest: Level)
        ensures
            greatest == greater_level(self, other),
    {
        let order: i128 = self.order();
        let other_order: i128 = other.order();
        if self.unsigned() > INFINITY || (other.unsigned() <= INFINITY && other_order > order) {
            other
        } else {
            self
        }
    }

    /// A whole number that orders levels as the numbers they stand for.
    fn order(self) -> (rank: i128)
        ensures
            rank == self.rank(),
    {
        if self.bits >= SIGN {
            -((self.bits - SIGN) as i128)
        } else {
            self.bits as i128
        }
    }
}

/// The greater of two levels, where what is not a number gives way.
pub open spec fn greater_level(a: Level, b: Level) -> Level {
    if !a.is_number() || (b.is_number() && b.rank() > a.rank()) {
        b
    } else {
        a
    }
}

/// The greatest of `levels` and zero, or nothing where there are no levels.
pub open spec fn greatest_level(levels: Seq<Level>) -> Option<Level>
    decreases levels.len(),
{
    if levels.len() == 0 {
        None
    } else {
        let before = match greatest_level(levels.drop_last()) {
            Some(level) => level,
            None => Level { bits: 0 },
        };
        Some(greater_level(before, levels.last()))
    }
}

/// The greatest of `levels` and zero, or nothing where there are no levels.
pub fn loudest(levels: &Vec<Level>) -> (loudest: Option<Level>)
    ensures
        loudest == greatest_level(levels@),
{
    let mut loudest: Option<Level> = None;
    let mut index: usize = 0;
    assert(levels@.take(0) =~= Seq::<Level>::empty());
    while index < levels.len()
        invariant
            index <= levels@.len(),
            loudest == greatest_level(levels@.take(index as int)),
        decreases levels@.len() - index,
    {
        assert(levels@.take(index + 1).drop_last() =~= levels@.take(index as int));
        let before = match loudest {
            Some(level) => level,
            None => Level { bits: 0 },
        };
        loudest = Some(before.max(levels[index]));
        index = index + 1;
    }
    assert(levels@.take(index as int) =~= levels@);
    loudest
}

/// No channel is louder than the loudest, which is one of them or zero.
pub proof fn law_loudest(levels: Seq<Level>)
    requires
        levels.len() > 0,
    ensures
        greatest_level(levels) is Some,
        greatest_level(levels)->0.is_number() && greatest_level(levels)->0.rank() >= 0,
        greatest_level(levels)->0 == (Level { bits: 0 }) || levels.contains(
            greatest_level(levels)->0,
        ),
        forall|i: int|
            0 <= i < levels.len() && (#[trigger] levels[i]).is_number() ==> levels[i].rank()
                <= greatest_level(levels)->0.rank(),
    decreases levels.len(),
{
    let shorter = levels.drop_last();
    assert(levels[levels.len() - 1] == levels.last());
    if shorter.len() > 0 {
        law_loudest(shorter);
        if shorter.contains(greatest_level(shorter)->0) {
            let i = choose|i: int|
                0 <= i < shorter.len() && shorter[i] == greatest_level(shorter)->0;
            assert(levels[i] == shorter[i]);
        }
        assert forall|i: int|
            0 <= i < levels.len() && (
            #[trigger] levels[i]).is_number() implies levels[i].rank() <= greatest_level(
            levels,
        )->0.rank() by {
            if i < shorter.len() {
                assert(shorter[i] == levels[i]);
            }
        }
    }
}

/// The level where it can be written in decibels.
pub open spec fn audible_level(level: Option<Level>) -> Option<Level> {
    match level {
        Some(level) if level.has_decibels() => Some(level),
        _ => None,
    }
}

/// The level where it can be written in decibels; there is no such thing for silence,
/// for an infinite level and for one that could not be measured.
pub fn audible(level: Option<Level>) -> (audible: Option<Level>)
    ensures
        audible == audible_level(level),
{
    match level {
        Some(level) => if level.is_positive() {
            Some(level)
        } else {
            None
        },
        None => None,
    }
}

/// Levels compare as the numbers that their patterns stand for: of two that are not below
/// zero the one with the lesser pattern is below the other, of two below zero the one with
/// the greater pattern, and what is below zero is below what is not. The zeros are equal,
/// and what is no number is neither below nor above anything.
pub proof fn law_levels_compare_as_numbers(a: Level, b: Level)
    ensures
        a.bits <= 0x7FF0_0000_0000_0000 && b.bits <= 0x7FF0_0000_0000_0000 ==> (a.is_less(b)
            <==> a.bits < b.bits),
        0x8000_0000_0000_0000 <= a.bits <= 0xFFF0_0000_0000_0000 && 0x8000_0000_0000_0000 <= b.bits
            <= 0xFFF0_0000_0000_0000 ==> (a.is_less(b) <==> a.bits > b.bits),
        a.bits <= 0x7FF0_0000_0000_0000 && 0x8000_0000_0000_0000 <= b.bits
            <= 0xFFF0_0000_0000_0000 ==> !a.is_less(b) && (b.is_less(a) <==> a.bits > 0 || b.bits
            > 0x8000_0000_0000_0000),
        0x7FF0_0000_0000_0000 < a.bits < 0x8000_0000_0000_0000 || 0xFFF0_0000_0000_0000 < a.bits
            ==> !a.is_less(b) && !b.is_less(a),
{
}

/// A level can be written in decibels exactly where its pattern is that of a finite number
/// above zero; only such a level is audible.
pub proof fn law_positive_levels_have_decibels(level: Level)
    ensures
        level.has_decibels() <==> 0 < level.bits < 0x7FF0_0000_0000_0000,
        level.is_finite_number() <==> level.bits < 0x7FF0_0000_0000_0000 || 0x8000_0000_0000_0000
            <= level.bits < 0xFFF0_0000_0000_0000,
        0 < level.bits < 0x7FF0_0000_0000_0000 ==> audible_level(Some(level)) == Some(level),
        level.bits == 0 || 0x7FF0_0000_0000_0000 <= level.bits ==> audible_level(Some(level))
            is None,
        audible_level(None) is None,
{
}

/// The loudest of levels that are finite numbers above zero is one of them, and no pattern
/// among them is greater. Without any level there is no loudest.
pub proof fn law_the_loudest_has_the_greatest_pattern(levels: Seq<Level>)
    ensures
        levels.len() == 0 ==> greatest_level(levels) is None,
        levels.len() > 0 ==> {
            &&& greatest_level(levels) matches Some(loudest)
            &&& loudest.bits <= 0x7FF0_0000_0000_0000
            &&& loudest.bits == 0 || levels.contains(loudest)
            &&& forall|i: int|
                0 <= i < levels.len() && (#[trigger] levels[i]).bits <= 0x7FF0_0000_0000_0000
                    ==> levels[i].bits <= loudest.bits
        },
{
    if levels.len() > 0 {
        law_loudest(levels);
        let loudest = greatest_level(levels)->0;
        lemma_loudest_is_not_negative(levels);
        assert forall|i: int|
            0 <= i < levels.len() && (#[trigger] levels[i]).bits
                <= 0x7FF0_0000_0000_0000 implies levels[i].bits <= loudest.bits by {
            assert(levels[i].is_number());
        }
    }
}

/// The loudest level is never written with a sign.
proof fn lemma_loudest_is_not_negative(levels: Seq<Level>)
    requires
        levels.len() > 0,
    ensures
        greatest_level(levels)->0.bits <= INFINITY,
    decreases levels.len(),
{
    if levels.len() > 1 {
        lemma_loudest_is_not_negative(levels.drop_last());
    } else {
        assert(greatest_level(levels.drop_last()) is None);
    }
}

/// Of two levels the greater is that with the greater pattern where neither is below zero,
/// and the first where they are equal; what is no number gives way to the other.
pub proof fn law_the_greater_level_is_kept(a: Level, b: Level)
    ensures
        a.bits <= 0x7FF0_0000_0000_0000 && b.bits <= 0x7FF0_0000_0000_0000 ==> greater_level(
            a,
            b,
        ).bits == if a.bits < b.bits {
            b.bits
        } else {
            a.bits
        },
        a.bits <= 0x7FF0_0000_0000_0000 && 0x8000_0000_0000_0000 <= b.bits ==> greater_level(a, b)
            == a,
        0 < b.bits <= 0x7FF0_0000_0000_0000 && 0x8000_0000_0000_0000 <= a.bits ==> greater_level(
            a,
            b,
        ) == b,
        0x8000_0000_0000_0000 <= a.bits <= 0xFFF0_0000_0000_0000 && 0x8000_0000_0000_0000 <= b.bits
            <= 0xFFF0_0000_0000_0000 ==> greater_level(a, b).bits == if b.bits < a.bits {
            b.bits
        } else {
            a.bits
        },
        0x7FF0_0000_0000_0000 < a.bits < 0x8000_0000_0000_0000 || 0xFFF0_0000_0000_0000 < a.bits
            ==> greater_level(a, b) == b,
        0x7FF0_0000_0000_0000 < b.bits < 0x8000_0000_0000_0000 && a.bits
            <= 0x7FF0_0000_0000_0000 ==> greater_level(a, b) == a,
{
}

} // verus!
