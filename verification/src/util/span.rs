use std::time::{Duration, Instant};
use vstd::prelude::*;

verus! {

/// Number of nanoseconds in one second.
pub const NANOS_PER_SEC: u32 = 1_000_000_000;

/// Total nanoseconds of the longest span: `u64::MAX` seconds and
/// 999_999_999 nanoseconds, the range of `std::time::Duration`.
pub open spec fn max_span_nanos() -> nat {
    u64::MAX as nat * 1_000_000_000 + 999_999_999
}

/// A span of time held as whole seconds and the nanoseconds beyond them,
/// with the range of `std::time::Duration`.
#[derive(Clone, Copy, PartialEq, Eq, Structural, Debug)]
pub struct Span {
    secs: u64,
    nanos: u32,
}

impl View for Span {
    /// The span in nanoseconds.
    type V = nat;

    closed spec fn view(&self) -> nat {
        self.secs as nat * 1_000_000_000 + self.nanos as nat
    }
}

impl Span {
    #[verifier::type_invariant]
    spec fn inv(self) -> bool {
        self.nanos < NANOS_PER_SEC
    }

    /// The empty span.
    pub fn zero() -> (s: Span)
        ensures
            s@ == 0,
    {
        Span { secs: 0, nanos: 0 }
    }

    /// The span of `secs` seconds and `nanos` nanoseconds.
    pub fn from_parts(secs: u64, nanos: u32) -> (s: Span)
        requires
            nanos < NANOS_PER_SEC,
        ensures
            s@ == secs as nat * 1_000_000_000 + nanos as nat,
    {
        Span { secs, nanos }
    }

    /// Whole seconds in the span.
    pub fn as_secs(&self) -> (r: u64)
        ensures
            r == self@ / 1_000_000_000,
    {
        proof {
            use_type_invariant(self);
        }
        self.secs
    }

    /// Nanoseconds beyond the whole seconds.
    pub fn subsec_nanos(&self) -> (r: u32)
        ensures
            r == self@ % 1_000_000_000,
    {
        proof {
            use_type_invariant(self);
        }
        self.nanos
    }

    pub fn is_zero(&self) -> (r: bool)
        ensures
            r == (self@ == 0),
    {
        self.secs == 0 && self.nanos == 0
    }

    /// `self > other`.
    pub fn longer_than(&self, other: &Span) -> (r: bool)
        ensures
            r == (self@ > other@),
    {
        proof {
            use_type_invariant(self);
            use_type_invariant(other);
        }
        self.secs > other.secs || (self.secs == other.secs && self.nanos > other.nanos)
    }

    /// `self + rhs`, or `None` where it would leave the range of a span.
    pub fn checked_add(self, rhs: Span) -> (r: Option<Span>)
        ensures
            r is Some <==> self@ + rhs@ <= max_span_nanos(),
            r matches Some(s) ==> s@ == self@ + rhs@,
    {
        proof {
            use_type_invariant(&self);
            use_type_invariant(&rhs);
        }
        let nanos_sum: u32 = self.nanos + rhs.nanos;
        if self.secs > u64::MAX - rhs.secs {
            return None;
        }
        let secs: u64 = self.secs + rhs.secs;
        if nanos_sum >= NANOS_PER_SEC {
            if secs == u64::MAX {
                None
            } else {
                Some(Span { secs: secs + 1, nanos: nanos_sum - NANOS_PER_SEC })
            }
        } else {
            Some(Span { secs, nanos: nanos_sum })
        }
    }
}

/// What `std::time::Duration::checked_div` returns, in nanoseconds, for a
/// duration of `nanos` nanoseconds and a non-zero divisor.
pub uninterp spec fn duration_div(nanos: nat, divisor: u32) -> nat;

/// `Duration::checked_div` of std on the duration that `s` stands for:
/// its documentation says that it returns `None` exactly when the divisor is
/// zero; the quotient is named `duration_div`, since the documentation does
/// not say how it is rounded.
#[verifier::external_body]
pub(crate) fn span_checked_div(s: Span, divisor: u32) -> (r: Option<Span>)
    ensures
        r is None <==> divisor == 0,
        r matches Some(q) ==> q@ == duration_div(s@, divisor),
{
    match Duration::new(s.secs, s.nanos).checked_div(divisor) {
        Some(q) => Some(Span { secs: q.as_secs(), nanos: q.subsec_nanos() }),
        None => None,
    }
}

#[verifier::external_type_specification]
#[verifier::external_body]
pub struct ExInstant(Instant);

/// `Instant::now()` of std: the current reading of the monotonic clock.
/// Nothing is stated of it.
#[verifier::external_body]
pub(crate) fn instant_now() -> Instant {
    Instant::now()
}

/// `end - start` for two instants of std, as a span (std returns zero when
/// `start` is the later one). Nothing is stated of the value: it depends on
/// clock readings.
#[verifier::external_body]
pub(crate) fn instant_elapsed(end: Instant, start: Instant) -> Span {
    let d = end - start;
    Span { secs: d.as_secs(), nanos: d.subsec_nanos() }
}

} // verus!
