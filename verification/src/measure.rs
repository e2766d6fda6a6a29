//! Measured numbers, as far as scoring orders them.
//!
//! A measurement is a 64-bit floating-point number. What the benchmark decides
//! about it, it decides by comparing, so here it is held as its place in the
//! order of all such numbers.

use vstd::prelude::*;

verus! {

/// A measured number by its place in the total order of 64-bit floating-point
/// numbers: positive zero is at 0, the numbers above it follow upwards, and
/// those below it downwards from -1. Beyond the two infinities lie the values
/// that are no numbers.
#[derive(Debug, Clone, Copy, PartialEq, Eq, Structural)]
pub struct Reading {
    pub place: i64,
}

/// Where positive infinity lies.
pub const INFINITY_PLACE: i64 = 0x7ff0_0000_0000_0000;

/// Where negative infinity lies.
pub const NEG_INFINITY_PLACE: i64 = -0x7ff0_0000_0000_0001;

impl Reading {
    /// Zero.
    pub open spec fn zero() -> Reading {
        Reading { place: 0 }
    }

    /// Positive infinity.
    pub open spec fn infinity() -> Reading {
        Reading { place: INFINITY_PLACE }
    }

    /// Whether this is a number, an infinity included.
    pub open spec fn is_number(self) -> bool {
        NEG_INFINITY_PLACE <= self.place <= INFINITY_PLACE
    }

    /// The place of the number with these bits: the sign bit, then the
    /// magnitude.
    pub open spec fn place_of(bits: u64) -> int {
        if bits < 0x8000_0000_0000_0000 {
            bits as int
        } else {
            0x8000_0000_0000_0000 - bits - 1
        }
    }

    /// The number with these bits.
    pub fn from_bits(bits: u64) -> (r: Reading)
        ensures
            r.place == Reading::place_of(bits),
    {
        if bits < 0x8000_0000_0000_0000 {
            Reading { place: bits as i64 }
        } else {
            let magnitude: u64 = bits - 0x8000_0000_0000_0000;
            Reading { place: -(magnitude as i64) - 1 }
        }
    }

    /// The bits of this number.
    pub fn to_bits(self) -> (r: u64)
        ensures
            Reading::place_of(r) == self.place,
    {
        if self.place >= 0 {
            self.place as u64
        } else {
            (-(self.place + 1)) as u64 + 0x8000_0000_0000_0000
        }
    }

    /// Whether this is a number not below `limit`.
    pub fn at_least(self, limit: Reading) -> (r: bool)
        ensures
            r == (self.is_number() && self.place >= limit.place),
    {
        NEG_INFINITY_PLACE <= self.place && self.place <= INFINITY_PLACE && self.place
            >= limit.place
    }

    /// The greater of the two, `other` being left out where it is no number.
    pub open spec fn higher(self, other: Reading) -> Reading {
        if other.is_number() && other.place > self.place {
            other
        } else {
            self
        }
    }

    /// The lesser of the two, `other` being left out where it is no number.
    pub open spec fn lower(self, other: Reading) -> Reading {
        if other.is_number() && other.place < self.place {
            other
        } else {
            self
        }
    }

    /// The greater of the two, `other` being left out where it is no number.
    pub fn max(self, other: Reading) -> (r: Reading)
        ensures
            r == self.higher(other),
    {
        if NEG_INFINITY_PLACE <= other.place && other.place <= INFINITY_PLACE && other.place
            > self.place {
            other
        } else {
            self
        }
    }

    /// The lesser of the two, `other` being left out where it is no number.
    pub fn min(self, other: Reading) -> (r: Reading)
        ensures
            r == self.lower(other),
    {
        if NEG_INFINITY_PLACE <= other.place && other.place <= INFINITY_PLACE && other.place
            < self.place {
            other
        } else {
            self
        }
    }
}

/// The greatest of zero and the numbers in `s`.
pub open spec fn highest(s: Seq<Reading>) -> Reading
    decreases s.len(),
{
    if s.len() == 0 {
        Reading::zero()
    } else {
        highest(s.drop_last()).higher(s.last())
    }
}

/// The least of the numbers in `s`, or infinity where there is none.
pub open spec fn lowest(s: Seq<Reading>) -> Reading
    decreases s.len(),
{
    if s.len() == 0 {
        Reading::infinity()
    } else {
        lowest(s.drop_last()).lower(s.last())
    }
}

/// Whether `r` is zero or one of the numbers in `s`, and none of them nor zero
/// is greater.
pub open spec fn is_greatest(s: Seq<Reading>, r: Reading) -> bool {
    &&& r == Reading::zero() || (s.contains(r) && r.is_number())
    &&& r.place >= 0
    &&& forall|i: int| 0 <= i < s.len() && (#[trigger] s[i]).is_number() ==> s[i].place <= r.place
}

/// Whether `r` is infinity or one of the numbers in `s`, and none of them is
/// less.
pub open spec fn is_least(s: Seq<Reading>, r: Reading) -> bool {
    &&& r == Reading::infinity() || (s.contains(r) && r.is_number())
    &&& r.place <= INFINITY_PLACE
    &&& forall|i: int| 0 <= i < s.len() && (#[trigger] s[i]).is_number() ==> s[i].place >= r.place
}

/// A score that is the best of several is one of them, and none beats it.
pub proof fn law_highest_is_greatest(s: Seq<Reading>)
    ensures
        is_greatest(s, highest(s)),
    decreases s.len(),
{
    if s.len() > 0 {
        let t = s.drop_last();
        law_highest_is_greatest(t);
        let r = highest(s);
        if t.contains(r) {
            let i = choose|i: int| 0 <= i < t.len() && t[i] == r;
            assert(s[i] == r);
        }
        if r == s.last() {
            assert(s[s.len() - 1] == r);
        }
        assert forall|i: int| 0 <= i < s.len() && (#[trigger] s[i]).is_number() implies s[i].place
            <= r.place by {
            if i < t.len() {
                assert(t[i] == s[i]);
            }
        }
    }
}

/// A latency that is the lowest of several is one of them, and none is lower.
pub proof fn law_lowest_is_least(s: Seq<Reading>)
    ensures
        is_least(s, lowest(s)),
    decreases s.len(),
{
    if s.len() > 0 {
        let t = s.drop_last();
        law_lowest_is_least(t);
        let r = lowest(s);
        if t.contains(r) {
            let i = choose|i: int| 0 <= i < t.len() && t[i] == r;
            assert(s[i] == r);
        }
        if r == s.last() {
            assert(s[s.len() - 1] == r);
        }
        assert forall|i: int| 0 <= i < s.len() && (#[trigger] s[i]).is_number() implies s[i].place
            >= r.place by {
            if i < t.len() {
                assert(t[i] == s[i]);
            }
        }
    }
}

/// Different bits are different readings.
pub proof fn law_bits_identify_a_reading(a: u64, b: u64)
    requires
        Reading::place_of(a) == Reading::place_of(b),
    ensures
        a == b,
{
}

/// Places are in the order of the numbers: positive ones by their bits, the
/// negative ones below them and the other way round.
pub proof fn law_places_are_in_order(a: u64, b: u64)
    requires
        a < b,
    ensures
        b < 0x8000_0000_0000_0000 ==> Reading::place_of(a) < Reading::place_of(b),
        a >= 0x8000_0000_0000_0000 ==> Reading::place_of(a) > Reading::place_of(b),
        a < 0x8000_0000_0000_0000 <= b ==> Reading::place_of(b) < 0 <= Reading::place_of(a),
        Reading::place_of(0) == 0,
{
}

/// The greater of two numbers is one of them, and neither is greater; what is
/// no number does not count. So with the lesser.
pub proof fn law_the_better_of_two(a: Reading, b: Reading)
    requires
        a.is_number(),
    ensures
        b.is_number() ==> {
            &&& a.higher(b) == a || a.higher(b) == b
            &&& a.higher(b).place >= a.place && a.higher(b).place >= b.place
            &&& a.lower(b) == a || a.lower(b) == b
            &&& a.lower(b).place <= a.place && a.lower(b).place <= b.place
        },
        !b.is_number() ==> a.higher(b) == a && a.lower(b) == a,
{
}

} // verus!
