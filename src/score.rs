use vstd::prelude::*;

verus! {

/// The sign bit of an IEEE-754 single-precision encoding.
pub const SIGN_BIT: u32 = 0x8000_0000;

/// The encoding of positive infinity: the largest magnitude that is a number.
pub const INFINITY_BITS: u32 = 0x7f80_0000;

/// A similarity score: an IEEE-754 single-precision value, held as its bit
/// pattern.
///
/// Scores are ranked by the value they encode. Both zeros rank equal, and NaN,
/// the score of a vector without magnitude, ranks below every number.
#[derive(Clone, Copy, Debug, PartialEq, Eq, Structural)]
pub struct Score {
    pub bits: u32,
}

impl Score {
    /// The encoding with the sign bit cleared.
    pub open spec fn magnitude(self) -> int {
        if self.bits >= SIGN_BIT {
            self.bits - SIGN_BIT
        } else {
            self.bits as int
        }
    }

    pub open spec fn negative(self) -> bool {
        self.bits >= SIGN_BIT
    }

    pub open spec fn nan(self) -> bool {
        self.magnitude() > INFINITY_BITS
    }

    /// The position of the score on the ranking scale. For numbers of one sign
    /// the encoding grows with the magnitude, so the signed magnitude orders
    /// numbers as their values are ordered; NaN sits below negative infinity.
    pub open spec fn rank_key(self) -> int {
        if self.nan() {
            -(SIGN_BIT as int)
        } else if self.negative() {
            -self.magnitude()
        } else {
            self.magnitude()
        }
    }

    pub fn from_bits(bits: u32) -> (s: Score)
        ensures
            s.bits == bits,
    {
        Score { bits }
    }

    pub fn to_bits(&self) -> (r: u32)
        ensures
            r == self.bits,
    {
        self.bits
    }

    pub fn is_nan(&self) -> (r: bool)
        ensures
            r == self.nan(),
    {
        let magnitude: u32 = if self.bits >= SIGN_BIT {
            self.bits - SIGN_BIT
        } else {
            self.bits
        };
        magnitude > INFINITY_BITS
    }

    /// The score's place on the ranking scale, as an integer.
    pub fn key(&self) -> (r: i64)
        ensures
            r == self.rank_key(),
    {
        if self.is_nan() {
            -(SIGN_BIT as i64)
        } else if self.bits >= SIGN_BIT {
            -((self.bits - SIGN_BIT) as i64)
        } else {
            self.bits as i64
        }
    }

    /// Whether this score ranks strictly above `other`.
    pub fn ranks_above(&self, other: &Score) -> (r: bool)
        ensures
            r == (self.rank_key() > other.rank_key()),
    {
        self.key() > other.key()
    }
}

} // verus!
