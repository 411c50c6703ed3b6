//! Spans of time.

use vstd::prelude::*;

verus! {

/// A span of time, to the nanosecond.
#[derive(Debug, Clone, Copy, PartialEq, Eq, Structural)]
pub struct Duration {
    secs: u64,
    nanos: u32,
}

impl View for Duration {
    type V = nat;

    /// The span in nanoseconds.
    closed spec fn view(&self) -> nat {
        (self.secs * 1_000_000_000 + self.nanos) as nat
    }
}

/// The number of nanoseconds in `secs` seconds.
pub open spec fn seconds(secs: nat) -> nat {
    secs * 1_000_000_000
}

/// The number of nanoseconds in `millis` milliseconds.
pub open spec fn milliseconds(millis: nat) -> nat {
    millis * 1_000_000
}

impl Duration {
    #[verifier::type_invariant]
    closed spec fn nanos_in_range(self) -> bool {
        self.nanos < 1_000_000_000
    }

    pub fn from_secs(secs: u64) -> (r: Duration)
        ensures
            r@ == seconds(secs as nat),
    {
        Duration { secs, nanos: 0 }
    }

    pub fn from_millis(millis: u64) -> (r: Duration)
        ensures
            r@ == milliseconds(millis as nat),
    {
        let nanos: u32 = (millis % 1000) as u32 * 1_000_000;
        Duration { secs: millis / 1000, nanos }
    }

    /// The whole seconds of the span.
    pub fn as_secs(&self) -> (r: u64)
        ensures
            r == self@ / 1_000_000_000,
    {
        proof {
            use_type_invariant(self);
        }
        self.secs
    }

    /// What is left of the span beyond its whole seconds.
    pub fn subsec_nanos(&self) -> (r: u32)
        ensures
            r == self@ % 1_000_000_000,
    {
        proof {
            use_type_invariant(self);
        }
        self.nanos
    }

    fn is_shorter(&self, other: &Duration) -> (r: bool)
        ensures
            r == (self@ < other@),
    {
        proof {
            use_type_invariant(self);
            use_type_invariant(other);
        }
        self.secs < other.secs || (self.secs == other.secs && self.nanos < other.nanos)
    }

    /// The longer of two spans.
    pub fn max(self, other: Duration) -> (r: Duration)
        ensures
            r == self || r == other,
            r@ == if self@ < other@ {
                other@
            } else {
                self@
            },
    {
        if self.is_shorter(&other) {
            other
        } else {
            self
        }
    }

    /// The shorter of two spans.
    pub fn min(self, other: Duration) -> (r: Duration)
        ensures
            r == self || r == other,
            r@ == if other@ < self@ {
                other@
            } else {
                self@
            },
    {
        if other.is_shorter(&self) {
            other
        } else {
            self
        }
    }
}

} // verus!
