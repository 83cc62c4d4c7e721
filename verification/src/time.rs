//! Spans of time, to the nanosecond.

use vstd::prelude::*;

verus! {

/// Nanoseconds in one second.
pub const NANOS_PER_SEC: u128 = 1_000_000_000;

/// The longest span: `u64::MAX` seconds and 999 999 999 nanoseconds.
pub const MAX_NANOS: u128 = 18_446_744_073_709_551_615_999_999_999;

/// A span of time.
///
/// Holds up to `u64::MAX` whole seconds plus a sub-second part, the same range
/// the platform's clock arithmetic works in.
#[derive(Clone, Copy, PartialEq, Eq, Structural)]
pub struct Duration {
    nanos: u128,
}

impl View for Duration {
    type V = nat;

    /// The length in nanoseconds.
    closed spec fn view(&self) -> nat {
        self.nanos as nat
    }
}

impl Duration {
    #[verifier::type_invariant]
    closed spec fn in_range(self) -> bool {
        self.nanos <= MAX_NANOS
    }

    /// Whole seconds.
    pub open spec fn secs(self) -> nat {
        self@ / 1_000_000_000
    }

    /// What is left over after the whole seconds, in nanoseconds.
    pub open spec fn subsec(self) -> nat {
        self@ % 1_000_000_000
    }

    /// A span of whole seconds plus nanoseconds.
    pub fn new(secs: u64, nanos: u32) -> (d: Duration)
        requires
            secs + nanos / 1_000_000_000 <= u64::MAX,
        ensures
            d@ == secs * 1_000_000_000 + nanos,
    {
        Duration { nanos: secs as u128 * NANOS_PER_SEC + nanos as u128 }
    }

    /// A span of whole seconds.
    pub fn from_secs(secs: u64) -> (d: Duration)
        ensures
            d@ == secs * 1_000_000_000,
    {
        Duration { nanos: secs as u128 * NANOS_PER_SEC }
    }

    /// A span of whole milliseconds.
    pub fn from_millis(millis: u64) -> (d: Duration)
        ensures
            d@ == millis * 1_000_000,
    {
        Duration { nanos: millis as u128 * 1_000_000 }
    }

    /// A span of whole microseconds.
    pub fn from_micros(micros: u64) -> (d: Duration)
        ensures
            d@ == micros * 1_000,
    {
        Duration { nanos: micros as u128 * 1_000 }
    }

    /// The length in nanoseconds.
    pub fn as_nanos(&self) -> (n: u128)
        ensures
            n == self@,
            n <= MAX_NANOS,
    {
        proof {
            use_type_invariant(self);
        }
        self.nanos
    }

    /// The length in whole microseconds.
    pub fn as_micros(&self) -> (n: u128)
        ensures
            n == self@ / 1_000,
    {
        self.nanos / 1_000
    }

    /// The whole seconds of the span.
    pub fn as_secs(&self) -> (n: u64)
        ensures
            n == self.secs(),
    {
        proof {
            use_type_invariant(self);
        }
        (self.nanos / NANOS_PER_SEC) as u64
    }

    /// The sub-second part of the span, in nanoseconds.
    pub fn subsec_nanos(&self) -> (n: u32)
        ensures
            n == self.subsec(),
            n < 1_000_000_000,
    {
        (self.nanos % NANOS_PER_SEC) as u32
    }

    /// Whether the span is empty.
    pub fn is_zero(&self) -> (b: bool)
        ensures
            b == (self@ == 0),
    {
        self.nanos == 0
    }

    /// Whether this span is longer than `other`.
    pub fn exceeds(&self, other: Duration) -> (b: bool)
        ensures
            b == (self@ > other@),
    {
        self.nanos > other.nanos
    }

    /// The span `factor` times over, if it is no longer than the longest one.
    pub fn checked_mul(&self, factor: u32) -> (r: Option<Duration>)
        ensures
            match r {
                Some(d) => d@ == self@ * factor,
                None => self@ * factor > MAX_NANOS,
            },
    {
        proof {
            use_type_invariant(self);
        }
        assert(self.nanos * factor <= MAX_NANOS * u32::MAX) by (nonlinear_arith)
            requires
                self.nanos <= MAX_NANOS,
                factor <= u32::MAX,
        ;
        let nanos: u128 = self.nanos * factor as u128;
        if nanos <= MAX_NANOS {
            Some(Duration { nanos })
        } else {
            None
        }
    }

    /// The span `factor` times over, stopping at the longest one.
    pub fn saturating_mul(&self, factor: u32) -> (d: Duration)
        ensures
            d@ == if self@ * factor <= MAX_NANOS { (self@ * factor) as nat } else { MAX_NANOS as nat },
    {
        proof {
            use_type_invariant(self);
        }
        assert(self.nanos * factor <= MAX_NANOS * 0xffff_ffff) by (nonlinear_arith)
            requires
                self.nanos <= MAX_NANOS,
                factor <= 0xffff_ffff,
        ;
        let product: u128 = self.nanos * factor as u128;
        if product <= MAX_NANOS {
            Duration { nanos: product }
        } else {
            Duration { nanos: MAX_NANOS }
        }
    }

    /// What is left of the span once `other` is taken off, nothing where `other`
    /// is longer.
    pub fn saturating_sub(&self, other: Duration) -> (d: Duration)
        ensures
            d@ == if self@ >= other@ { (self@ - other@) as nat } else { 0 },
    {
        proof {
            use_type_invariant(self);
        }
        if self.nanos >= other.nanos {
            Duration { nanos: self.nanos - other.nanos }
        } else {
            Duration { nanos: 0 }
        }
    }

    /// The shorter of two spans.
    pub fn min(self, other: Duration) -> (d: Duration)
        ensures
            d == if self@ <= other@ { self } else { other },
    {
        if self.nanos <= other.nanos {
            self
        } else {
            other
        }
    }
}

/// The text that the standard library's `Debug` gives a span of `secs` seconds
/// and `nanos` nanoseconds.
pub uninterp spec fn duration_debug(secs: u64, nanos: u32) -> Seq<char>;

/// Formats `std::time::Duration::new(secs, nanos)` with `{:?}`: the text is
/// fixed by the two numbers. What it looks like is left unsaid.
#[verifier::external_body]
fn format_duration(secs: u64, nanos: u32) -> (s: String)
    requires
        nanos < 1_000_000_000,
    ensures
        s@ == duration_debug(secs, nanos),
{
    format!("{:?}", std::time::Duration::new(secs, nanos))
}

impl Duration {
    /// The span as people read it.
    pub open spec fn text(self) -> Seq<char> {
        duration_debug(self.secs() as u64, self.subsec() as u32)
    }

    /// The span as people read it.
    pub fn to_text(&self) -> (s: String)
        ensures
            s@ == self.text(),
    {
        format_duration(self.as_secs(), self.subsec_nanos())
    }
}

impl core::fmt::Debug for Duration {
    fn fmt(&self, f: &mut core::fmt::Formatter<'_>) -> (r: core::fmt::Result)
        ensures
            r is Ok ==> crate::text::written(*final(f)) == crate::text::written(*old(f)) + self.text(),
    {
        f.write_str(&self.to_text())
    }
}

/// A span is determined by its length.
pub proof fn duration_is_its_length(a: Duration, b: Duration)
    requires
        a@ == b@,
    ensures
        a == b,
{
}

/// Whole seconds and what is left over make up the span.
pub proof fn seconds_and_the_rest_make_the_span(d: Duration)
    ensures
        d.secs() * 1_000_000_000 + d.subsec() == d@,
        d.subsec() < 1_000_000_000,
{
}

} // verus!
