//! Readings held by rank.

use vstd::prelude::*;

verus! {

/// The rank of a floating point reading.
///
/// Two readings compare exactly as their ranks do. A reading that is not a
/// number has no rank and every comparison with it is false.
#[derive(Clone, Copy, Debug, PartialEq, Eq, Structural)]
pub enum Level {
    At(i64),
    Unordered,
}

/// Bits of the exponent field of a binary64 number that is infinite or not a number.
pub const EXPONENT_BITS: u64 = 0x7ff0_0000_0000_0000;

/// The sign bit of a binary64 number.
pub const SIGN_BIT: u64 = 0x8000_0000_0000_0000;

/// The rank of a binary64 bit pattern.
pub open spec fn level_of_bits(bits: u64) -> Level {
    let magnitude = if bits >= SIGN_BIT { bits - SIGN_BIT } else { bits as int };
    if magnitude > EXPONENT_BITS {
        Level::Unordered
    } else if bits >= SIGN_BIT {
        Level::At((-magnitude) as i64)
    } else {
        Level::At(magnitude as i64)
    }
}

/// Whether `a` ranks strictly above `b`.
pub open spec fn above(a: Level, b: Level) -> bool {
    match (a, b) {
        (Level::At(x), Level::At(y)) => x > y,
        _ => false,
    }
}

/// Whether `a` ranks at or below `b`.
pub open spec fn at_most(a: Level, b: Level) -> bool {
    match (a, b) {
        (Level::At(x), Level::At(y)) => x <= y,
        _ => false,
    }
}

/// The larger of two readings; a reading without rank gives way to the other.
pub open spec fn higher(a: Level, b: Level) -> Level {
    match (a, b) {
        (Level::At(x), Level::At(y)) => if x >= y {
            a
        } else {
            b
        },
        (Level::Unordered, _) => b,
        (_, Level::Unordered) => a,
    }
}

/// The key by which a reading is sorted; a reading without rank comes below all others.
pub open spec fn sort_key(a: Level) -> int {
    match a {
        Level::At(x) => x as int,
        Level::Unordered => i64::MIN - 1,
    }
}

/// A bit pattern of the number that has a rank; a quiet not-a-number where there is none.
pub open spec fn bits_of(l: Level) -> u64 {
    match l {
        Level::At(x) => if x >= 0 {
            x as u64
        } else if x == i64::MIN {
            SIGN_BIT
        } else {
            (SIGN_BIT - x) as u64
        },
        Level::Unordered => 0x7ff8_0000_0000_0000,
    }
}

impl Level {
    /// The rank of the number with the binary64 bit pattern `bits`.
    pub fn of_bits(bits: u64) -> (level: Level)
        ensures
            level == level_of_bits(bits),
    {
        let magnitude: u64 = if bits >= SIGN_BIT {
            bits - SIGN_BIT
        } else {
            bits
        };
        if magnitude > EXPONENT_BITS {
            Level::Unordered
        } else if bits >= SIGN_BIT {
            Level::At(-(magnitude as i64))
        } else {
            Level::At(magnitude as i64)
        }
    }

    /// A bit pattern of the number that has this rank; a quiet not-a-number where there is no rank.
    pub fn to_bits(self) -> (bits: u64)
        ensures
            match self {
                Level::At(x) => if x >= 0 {
                    bits == x
                } else if x == i64::MIN {
                    bits == SIGN_BIT
                } else {
                    bits == SIGN_BIT - x
                },
                Level::Unordered => bits == 0x7ff8_0000_0000_0000,
            },
            bits == bits_of(self),
    {
        match self {
            Level::At(x) => {
                if x >= 0 {
                    x as u64
                } else if x == i64::MIN {
                    SIGN_BIT
                } else {
                    SIGN_BIT + (-x) as u64
                }
            },
            Level::Unordered => 0x7ff8_0000_0000_0000,
        }
    }

    /// Strictly above.
    pub fn gt(self, other: Level) -> (r: bool)
        ensures
            r == above(self, other),
    {
        match (self, other) {
            (Level::At(x), Level::At(y)) => x > y,
            _ => false,
        }
    }

    /// At or below.
    pub fn le(self, other: Level) -> (r: bool)
        ensures
            r == at_most(self, other),
    {
        match (self, other) {
            (Level::At(x), Level::At(y)) => x <= y,
            _ => false,
        }
    }

    /// The larger of the two.
    pub fn max(self, other: Level) -> (r: Level)
        ensures
            r == higher(self, other),
    {
        match (self, other) {
            (Level::At(x), Level::At(y)) => if x >= y {
                self
            } else {
                other
            },
            (Level::Unordered, _) => other,
            (_, Level::Unordered) => self,
        }
    }

    /// The key by which readings are sorted.
    pub fn key(self) -> (k: i128)
        ensures
            k == sort_key(self),
    {
        match self {
            Level::At(x) => x as i128,
            Level::Unordered => i64::MIN as i128 - 1,
        }
    }
}

/// Reading a rank back gives the rank: the bits of a ranked number decode to its rank.
pub proof fn lemma_rank_survives_bits(bits: u64)
    requires
        level_of_bits(bits) is At,
    ensures
        ({
            let x = level_of_bits(bits)->At_0;
            &&& x >= 0 ==> level_of_bits(x as u64) == level_of_bits(bits)
            &&& x < 0 ==> level_of_bits((SIGN_BIT - x) as u64) == level_of_bits(bits)
        }),
{
}

/// Of two ranked readings exactly one of "above" and "at most" holds.
pub proof fn lemma_ranked_readings_compare(a: Level, b: Level)
    requires
        a is At,
        b is At,
    ensures
        above(a, b) != at_most(a, b),
        above(a, b) ==> !above(b, a),
{
}

/// Readings of zero and above rank as their bit patterns do, readings below zero rank the other way
/// round and below those, both zeros rank alike, and what is not a number does not rank.
pub proof fn lemma_bits_rank_as_numbers(a: u64, b: u64)
    ensures
        a < b <= 0x7ff0_0000_0000_0000 ==> above(level_of_bits(b), level_of_bits(a)),
        0x8000_0000_0000_0000 <= a < b <= 0xfff0_0000_0000_0000 ==> above(level_of_bits(a), level_of_bits(b)),
        0 < a <= 0x7ff0_0000_0000_0000 && 0x8000_0000_0000_0000 <= b <= 0xfff0_0000_0000_0000 ==> above(
            level_of_bits(a),
            level_of_bits(b),
        ),
        level_of_bits(0x8000_0000_0000_0000) == level_of_bits(0),
        0x7ff0_0000_0000_0000 < a < 0x8000_0000_0000_0000 || 0xfff0_0000_0000_0000 < a ==> !above(
            level_of_bits(a),
            level_of_bits(b),
        ) && !above(level_of_bits(b), level_of_bits(a)) && !at_most(level_of_bits(a), level_of_bits(b)) && !at_most(
            level_of_bits(b),
            level_of_bits(a),
        ),
{
}

/// A reading is found again by its bits: every bit pattern of a number gives a rank whose bits give that rank, and
/// what is not a number stays so.
pub proof fn lemma_bits_survive(bits: u64)
    ensures
        level_of_bits(bits_of(level_of_bits(bits))) == level_of_bits(bits),
        0 <= bits <= 0x7ff0_0000_0000_0000 ==> bits_of(level_of_bits(bits)) == bits,
        0x8000_0000_0000_0000 < bits <= 0xfff0_0000_0000_0000 ==> bits_of(level_of_bits(bits)) == bits,
{
}

/// Readings with ranks compare as the ranks do, and one without a rank neither lies above nor below
/// anything.
pub proof fn lemma_readings_compare(a: Level, b: Level)
    ensures
        match (a, b) {
            (Level::At(x), Level::At(y)) => (above(a, b) <==> x > y) && (at_most(a, b) <==> x <= y),
            _ => !above(a, b) && !at_most(a, b),
        },
{
}

/// The larger of two readings is one of them, no reading of the two lies above it, and it has a rank
/// where one of them has.
pub proof fn lemma_higher_is_largest(a: Level, b: Level)
    ensures
        higher(a, b) == a || higher(a, b) == b,
        !above(a, higher(a, b)) && !above(b, higher(a, b)),
        a is At || b is At ==> higher(a, b) is At,
        a is At ==> at_most(a, higher(a, b)),
        b is At ==> at_most(b, higher(a, b)),
{
}

/// Sorting by key sorts by reading: of two readings the one with the larger key lies above, and
/// what has no rank comes last.
pub proof fn lemma_keys_sort_readings(a: Level, b: Level)
    ensures
        a is At && b is At ==> (sort_key(a) > sort_key(b) <==> above(a, b)),
        a is At && b is Unordered ==> sort_key(a) > sort_key(b),
        -0x8000_0000_0000_0001 <= sort_key(a) <= 0x7fff_ffff_ffff_ffff,
{
}

} // verus!
