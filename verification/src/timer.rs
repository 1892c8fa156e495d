use std::time::Instant;
use vstd::prelude::*;

use crate::util::span::{duration_div, instant_elapsed, instant_now, max_span_nanos, span_checked_div, Span};

verus! {

/// Sum of the spans of `s`, in nanoseconds.
pub open spec fn total_nanos(s: Seq<Span>) -> nat
    decreases s.len(),
{
    if s.len() == 0 {
        0
    } else {
        total_nanos(s.drop_last()) + s.last()@
    }
}

/// A ring of the last measured frame times.
pub struct Timer {
    start: Option<Instant>,
    durs: Vec<Span>,
    i: usize,
}

impl Timer {
    /// The slot index lies within the ring (or is 0 for an empty ring).
    pub closed spec fn wf(&self) -> bool {
        &&& self.i == 0 || self.i < self.durs.len()
        &&& self.durs.len() <= isize::MAX
    }

    /// The stored spans, in slot order.
    pub closed spec fn durations(&self) -> Seq<Span> {
        self.durs@
    }

    /// The slot that the last pushed span went to.
    pub closed spec fn slot(&self) -> usize {
        self.i
    }

    /// When the running measurement started.
    pub closed spec fn start_instant(&self) -> Option<Instant> {
        self.start
    }

    /// A measurement has been started and not yet ended.
    pub closed spec fn running(&self) -> bool {
        self.start is Some
    }

    /// A timer with `size` empty slots.
    pub fn new(size: usize) -> (t: Self)
        requires
            size <= isize::MAX,
        ensures
            t.durations().len() == size,
            forall|k: int| 0 <= k < size ==> #[trigger] t.durations()[k]@ == 0,
            t.slot() == 0,
            !t.running(),
            t.wf(),
    {
        let durs = vec![Span::zero(); size];
        Timer { start: None, durs, i: 0 }
    }

    /// Stores `dur` in the slot after the last one, wrapping around.
    pub fn push(&mut self, dur: Span)
        requires
            old(self).wf(),
            old(self).durations().len() > 0,
        ensures
            final(self).wf(),
            final(self).slot() == (old(self).slot() + 1) % (old(self).durations().len() as int),
            final(self).durations() == old(self).durations().update(
                final(self).slot() as int,
                dur,
            ),
            final(self).running() == old(self).running(),
            final(self).start_instant() == old(self).start_instant(),
    {
        self.i = (self.i + 1) % self.durs.len();
        self.durs.set(self.i, dur);
    }

    /// Starts a measurement at the current time.
    pub fn start(&mut self)
        ensures
            final(self).wf() == old(self).wf(),
            final(self).running(),
            final(self).durations() == old(self).durations(),
            final(self).slot() == old(self).slot(),
    {
        self.start = Some(instant_now());
    }

    /// Ends a started measurement and pushes the time it took; without a
    /// started measurement, nothing changes.
    pub fn end(&mut self)
        requires
            old(self).wf(),
            old(self).running() ==> old(self).durations().len() > 0,
        ensures
            final(self).wf(),
            !final(self).running(),
            final(self).durations().len() == old(self).durations().len(),
            old(self).running() ==> {
                &&& final(self).slot() == (old(self).slot() + 1) % (
                old(self).durations().len() as int)
                &&& forall|k: int|
                    0 <= k < old(self).durations().len() && k != final(self).slot()
                        ==> #[trigger] final(self).durations()[k] == old(self).durations()[k]
            },
            !old(self).running() ==> final(self).durations() == old(self).durations()
                && final(self).slot() == old(self).slot(),
    {
        let end = instant_now();
        if let Some(start) = self.start {
            self.start = None;
            let elapsed = instant_elapsed(end, start);
            self.push(elapsed);
        }
    }

    /// The mean of the stored spans, or `None` while the last slot is empty.
    pub fn avg(&self) -> (r: Option<Span>)
        requires
            self.durations().len() > 0 && self.durations().last()@ != 0 ==> {
                &&& total_nanos(self.durations()) <= max_span_nanos()
                &&& self.durations().len() as u32 != 0
            },
        ensures
            self.durations().len() == 0 || self.durations().last()@ == 0 ==> r is None,
            self.durations().len() > 0 && self.durations().last()@ != 0 ==> r is Some
                && r.unwrap()@ == duration_div(
                total_nanos(self.durations()),
                self.durations().len() as u32,
            ),
    {
        let len = self.durs.len();
        if len == 0 {
            return None;
        }
        if self.durs[len - 1].is_zero() {
            return None;
        }
        let ghost d = self.durs@;
        let mut sum = Span::zero();
        let mut k: usize = 0;
        while k < len
            invariant
                len == d.len(),
                d == self.durs@,
                k <= len,
                sum@ == total_nanos(d.subrange(0, k as int)),
                total_nanos(d) <= max_span_nanos(),
            decreases len - k,
        {
            proof {
                assert(d.subrange(0, k + 1).drop_last() =~= d.subrange(0, k as int));
                lemma_total_nanos_prefix_le(d, k + 1);
            }
            match sum.checked_add(self.durs[k]) {
                Some(s) => {
                    sum = s;
                },
                None => {
                    proof {
                        assert(false);
                    }
                },
            }
            k = k + 1;
        }
        proof {
            assert(d.subrange(0, len as int) =~= d);
        }
        let divisor = len as u32;
        span_checked_div(sum, divisor)
    }
}

/// The sum over a prefix is at most the sum over the whole sequence.
pub proof fn lemma_total_nanos_prefix_le(s: Seq<Span>, n: int)
    requires
        0 <= n <= s.len(),
    ensures
        total_nanos(s.subrange(0, n)) <= total_nanos(s),
    decreases s.len(),
{
    if n < s.len() {
        assert(s.drop_last().subrange(0, n) =~= s.subrange(0, n));
        lemma_total_nanos_prefix_le(s.drop_last(), n);
    } else {
        assert(s.subrange(0, n) =~= s);
    }
}

} // verus!
