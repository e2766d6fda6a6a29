//! Lengths of time, from zero to `u64::MAX` seconds and 999,999,999
//! nanoseconds, with arithmetic that saturates.

use vstd::prelude::*;

verus! {

/// The greatest duration in nanoseconds.
pub const MAX_NANOS: u128 = 18_446_744_073_709_551_615_999_999_999;

/// A length of time.
#[derive(Debug, Clone, Copy, PartialEq, Eq, Structural)]
pub struct Duration {
    nanos: u128,
}

/// A duration is viewed as its nanoseconds.
impl View for Duration {
    type V = nat;

    closed spec fn view(&self) -> nat {
        self.nanos as nat
    }
}

/// `n` nanoseconds, or the greatest duration where that is less.
pub open spec fn saturate(n: nat) -> nat {
    if n <= MAX_NANOS {
        n
    } else {
        MAX_NANOS as nat
    }
}

/// Durations of the same length are the same.
pub proof fn law_length_identifies_a_duration(a: Duration, b: Duration)
    requires
        a@ == b@,
    ensures
        a == b,
{
}

impl Duration {
    #[verifier::type_invariant]
    spec fn bounded(self) -> bool {
        self.nanos <= MAX_NANOS
    }

    /// No time at all.
    pub fn zero() -> (r: Duration)
        ensures
            r@ == 0,
    {
        Duration { nanos: 0 }
    }

    /// `secs` seconds and `nanos` nanoseconds.
    pub fn new(secs: u64, nanos: u32) -> (r: Duration)
        requires
            nanos < 1_000_000_000,
        ensures
            r@ == secs as nat * 1_000_000_000 + nanos as nat,
    {
        Duration { nanos: secs as u128 * 1_000_000_000 + nanos as u128 }
    }

    /// `secs` seconds.
    pub fn from_secs(secs: u64) -> (r: Duration)
        ensures
            r@ == secs as nat * 1_000_000_000,
    {
        Duration { nanos: secs as u128 * 1_000_000_000 }
    }

    /// `millis` milliseconds.
    pub fn from_millis(millis: u64) -> (r: Duration)
        ensures
            r@ == millis as nat * 1_000_000,
    {
        Duration { nanos: millis as u128 * 1_000_000 }
    }

    /// Whether this is no time at all.
    pub fn is_zero(self) -> (r: bool)
        ensures
            r == (self@ == 0),
    {
        self.nanos == 0
    }

    /// The whole seconds.
    pub fn as_secs(self) -> (r: u64)
        ensures
            r == self@ / 1_000_000_000,
    {
        proof {
            use_type_invariant(self);
        }
        (self.nanos / 1_000_000_000) as u64
    }

    /// The nanoseconds beyond the whole seconds.
    pub fn subsec_nanos(self) -> (r: u32)
        ensures
            r == self@ % 1_000_000_000,
            r < 1_000_000_000,
    {
        (self.nanos % 1_000_000_000) as u32
    }

    /// The whole milliseconds beyond the whole seconds.
    pub fn subsec_millis(self) -> (r: u32)
        ensures
            r == (self@ % 1_000_000_000) / 1_000_000,
            r < 1000,
    {
        ((self.nanos % 1_000_000_000) / 1_000_000) as u32
    }

    /// The whole milliseconds.
    pub fn as_millis(self) -> (r: u128)
        ensures
            r == self@ / 1_000_000,
    {
        self.nanos / 1_000_000
    }

    /// The sum, or the greatest duration where the sum is beyond it.
    pub fn saturating_add(self, other: Duration) -> (r: Duration)
        ensures
            r@ == saturate(self@ + other@),
    {
        proof {
            use_type_invariant(self);
            use_type_invariant(other);
        }
        let n: u128 = self.nanos + other.nanos;
        Duration {
            nanos: if n <= MAX_NANOS {
                n
            } else {
                MAX_NANOS
            },
        }
    }

    /// The difference, or no time where `other` is longer.
    pub fn saturating_sub(self, other: Duration) -> (r: Duration)
        ensures
            r@ == (if self@ >= other@ {
                (self@ - other@) as nat
            } else {
                0
            }),
    {
        proof {
            use_type_invariant(self);
        }
        Duration {
            nanos: if self.nanos >= other.nanos {
                self.nanos - other.nanos
            } else {
                0
            },
        }
    }

    /// The product, or the greatest duration where the product is beyond it.
    pub fn saturating_mul(self, factor: u32) -> (r: Duration)
        ensures
            r@ == saturate(self@ * factor as nat),
    {
        proof {
            use_type_invariant(self);
            assert(self.nanos * factor <= MAX_NANOS * 0xffff_ffff) by (nonlinear_arith)
                requires
                    self.nanos <= MAX_NANOS,
                    factor <= 0xffff_ffff,
            ;
        }
        let n: u128 = self.nanos * factor as u128;
        Duration {
            nanos: if n <= MAX_NANOS {
                n
            } else {
                MAX_NANOS
            },
        }
    }

    /// The shorter of the two.
    pub fn min(self, other: Duration) -> (r: Duration)
        ensures
            r@ == (if other@ < self@ {
                other@
            } else {
                self@
            }),
    {
        if other.nanos < self.nanos {
            other
        } else {
            self
        }
    }
}

/// Every length of time that a duration can have is kept, and what is beyond
/// is cut to the greatest.
pub proof fn law_only_the_greatest_is_cut(n: nat)
    ensures
        n < 18_446_744_073_709_551_616 * 1_000_000_000 ==> saturate(n) == n,
        n >= 18_446_744_073_709_551_616 * 1_000_000_000 ==> saturate(n)
            == 18_446_744_073_709_551_616 * 1_000_000_000 - 1,
{
}

} // verus!
