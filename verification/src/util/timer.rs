use std::time::Instant;
use vstd::prelude::*;

use crate::util::span::{duration_div, instant_elapsed, instant_now, max_span_nanos, span_checked_div, Span};

verus! {

/// The span `k` slots before slot `from` in the ring `durs` (for `k` below
/// the ring's length): the `k`-th newest when `from` holds the newest.
pub open spec fn ring_at(durs: Seq<Span>, from: int, k: int) -> Span {
    durs[(from + durs.len() - k) % (durs.len() as int)]
}

/// Total and count of the spans that `Timer::avg` takes in, going back
/// through the ring from the newest span at slot `from`, continuing from the
/// `k`-th step with `sum` and `count` gathered so far: it stops at an empty
/// slot, after a full round, or right after the total has passed `limit`.
pub open spec fn window(durs: Seq<Span>, from: int, limit: nat, k: nat, sum: nat, count: nat) -> (
    nat,
    nat,
)
    decreases durs.len() - k,
{
    if k >= durs.len() {
        (sum, count)
    } else if ring_at(durs, from, k as int)@ == 0 {
        (sum, count)
    } else if sum + ring_at(durs, from, k as int)@ > limit {
        (sum + ring_at(durs, from, k as int)@, count + 1)
    } else {
        window(durs, from, limit, k + 1, sum + ring_at(durs, from, k as int)@, count + 1)
    }
}

proof fn lemma_window_grows(durs: Seq<Span>, from: int, limit: nat, k: nat, sum: nat, count: nat)
    ensures
        window(durs, from, limit, k, sum, count).0 >= sum,
        window(durs, from, limit, k, sum, count).1 >= count,
    decreases durs.len() - k,
{
    if k < durs.len() && ring_at(durs, from, k as int)@ != 0 && sum + ring_at(
        durs,
        from,
        k as int,
    )@ <= limit {
        lemma_window_grows(
            durs,
            from,
            limit,
            k + 1,
            sum + ring_at(durs, from, k as int)@,
            count + 1,
        );
    }
}

/// Taking in the `k`-th newest span (non-zero) makes the final window at
/// least as large as the sum and count right after it.
proof fn lemma_window_step(durs: Seq<Span>, from: int, limit: nat, k: nat, sum: nat, count: nat)
    requires
        k < durs.len(),
        ring_at(durs, from, k as int)@ != 0,
    ensures
        window(durs, from, limit, k, sum, count).0 >= sum + ring_at(durs, from, k as int)@,
        window(durs, from, limit, k, sum, count).1 >= count + 1,
        sum + ring_at(durs, from, k as int)@ <= limit ==> window(durs, from, limit, k, sum, count)
            == window(durs, from, limit, k + 1, sum + ring_at(durs, from, k as int)@, count + 1),
        sum + ring_at(durs, from, k as int)@ > limit ==> window(durs, from, limit, k, sum, count)
            == (sum + ring_at(durs, from, k as int)@, count + 1),
{
    lemma_window_grows(durs, from, limit, k + 1, sum + ring_at(durs, from, k as int)@, count + 1);
}

proof fn lemma_window_bounds(
    durs: Seq<Span>,
    from: int,
    limit: nat,
    k: nat,
    sum: nat,
    count: nat,
    m: nat,
)
    requires
        from >= 0,
        sum <= limit,
        k <= durs.len(),
        forall|j: int| 0 <= j < durs.len() ==> #[trigger] durs[j]@ <= m,
    ensures
        window(durs, from, limit, k, sum, count).1 <= count + (durs.len() - k),
        window(durs, from, limit, k, sum, count).0 <= limit + m,
    decreases durs.len() - k,
{
    if k < durs.len() {
        let idx = (from + durs.len() - k) % (durs.len() as int);
        assert(0 <= idx < durs.len());
        assert(durs[idx]@ <= m);
        if ring_at(durs, from, k as int)@ != 0 && sum + ring_at(durs, from, k as int)@ <= limit {
            lemma_window_bounds(
                durs,
                from,
                limit,
                k + 1,
                sum + ring_at(durs, from, k as int)@,
                count + 1,
                m,
            );
        }
    }
}

/// A ring of measured times that reports their mean over roughly a given
/// span of time.
pub struct Timer {
    start: Option<Instant>,
    durs: Vec<Span>,
    i: usize,
    enabled: bool,
    duration: Span,
}

impl Timer {
    /// The slot index lies within the ring (or is 0 for an empty ring).
    pub closed spec fn wf(&self) -> bool {
        &&& self.i == 0 || self.i < self.durs.len()
        &&& self.durs.len() <= isize::MAX
    }

    /// The stored spans, in slot order.
    pub closed spec fn durations(&self) -> Seq<Span> {
        self.durs@
    }

    /// The slot that the last pushed span went to.
    pub closed spec fn slot(&self) -> usize {
        self.i
    }

    /// A measurement has been started and not yet stopped.
    pub closed spec fn running(&self) -> bool {
        self.start is Some
    }

    /// When the running measurement started.
    pub closed spec fn start_instant(&self) -> Option<Instant> {
        self.start
    }

    /// Measurements are taken.
    pub closed spec fn enabled(&self) -> bool {
        self.enabled
    }

    /// The span over which `avg` averages.
    pub closed spec fn averaging_span(&self) -> Span {
        self.duration
    }

    /// Total and count of the spans that `avg` averages.
    pub open spec fn avg_window(&self) -> (nat, nat) {
        window(self.durations(), self.slot() as int, self.averaging_span()@, 0, 0, 0)
    }

    /// Creates a new timer that can store up to `size` durations.
    /// The `avg` function will report the average time taken roughly over the
    /// provided duration. The size should be at least as many times as you
    /// expect to run the timer within the provided duration.
    pub fn new(duration: Span, size: usize) -> (t: Self)
        requires
            size <= isize::MAX,
        ensures
            t.wf(),
            t.durations().len() == size,
            forall|k: int| 0 <= k < size ==> #[trigger] t.durations()[k]@ == 0,
            t.slot() == 0,
            !t.running(),
            t.enabled(),
            t.averaging_span() == duration,
    {
        Timer { start: None, durs: vec![Span::zero(); size], i: 0, enabled: true, duration }
    }

    /// Stores `dur` in the slot after the last one, wrapping around.
    pub fn push(&mut self, dur: Span)
        requires
            old(self).wf(),
            old(self).durations().len() > 0,
        ensures
            final(self).wf(),
            final(self).slot() == (old(self).slot() + 1) % (old(self).durations().len() as int),
            final(self).durations() == old(self).durations().update(
                final(self).slot() as int,
                dur,
            ),
            final(self).running() == old(self).running(),
            final(self).start_instant() == old(self).start_instant(),
            final(self).enabled() == old(self).enabled(),
            final(self).averaging_span() == old(self).averaging_span(),
    {
        self.i = (self.i + 1) % self.durs.len();
        self.durs.set(self.i, dur);
    }

    /// Starts a measurement at the current time, if the timer is enabled.
    pub fn start(&mut self)
        ensures
            final(self).wf() == old(self).wf(),
            final(self).running() == (old(self).enabled() || old(self).running()),
            !old(self).enabled() ==> final(self).start_instant() == old(self).start_instant(),
            final(self).durations() == old(self).durations(),
            final(self).slot() == old(self).slot(),
            final(self).enabled() == old(self).enabled(),
            final(self).averaging_span() == old(self).averaging_span(),
    {
        if self.enabled {
            self.start = Some(instant_now());
        }
    }

    /// If the timer is enabled, ends a started measurement and pushes the
    /// time it took; otherwise nothing changes.
    pub fn stop(&mut self)
        requires
            old(self).wf(),
            old(self).enabled() && old(self).running() ==> old(self).durations().len() > 0,
        ensures
            final(self).wf(),
            final(self).enabled() == old(self).enabled(),
            final(self).averaging_span() == old(self).averaging_span(),
            final(self).durations().len() == old(self).durations().len(),
            final(self).running() == (old(self).running() && !old(self).enabled()),
            old(self).enabled() && old(self).running() ==> {
                &&& final(self).slot() == (old(self).slot() + 1) % (
                old(self).durations().len() as int)
                &&& forall|k: int|
                    0 <= k < old(self).durations().len() && k != final(self).slot()
                        ==> #[trigger] final(self).durations()[k] == old(self).durations()[k]
            },
            !(old(self).enabled() && old(self).running()) ==> final(self).durations() == old(
                self,
            ).durations() && final(self).slot() == old(self).slot() && final(self).start_instant()
                == old(self).start_instant(),
    {
        if self.enabled {
            let end = instant_now();
            if let Some(start) = self.start {
                self.start = None;
                let elapsed = instant_elapsed(end, start);
                self.push(elapsed);
            }
        }
    }

    /// Total and count of the spans in the averaging window (see `window`),
    /// or `None` where the total leaves the range of a span or the count
    /// that of `u32`.
    fn gather(&self) -> (r: Option<(Span, u32)>)
        requires
            self.wf(),
        ensures
            r is Some <==> (self.avg_window().0 <= max_span_nanos() && self.avg_window().1
                <= u32::MAX),
            r matches Some((s, c)) ==> s@ == self.avg_window().0 && c == self.avg_window().1,
    {
        let ghost d = self.durs@;
        let ghost from = self.i as int;
        let ghost limit = self.duration@;
        let ghost total = self.avg_window();
        let len = self.durs.len();
        let mut sum = Span::zero();
        let mut count: u32 = 0;
        let mut done = false;
        let mut k: usize = 0;
        while k < len && !done
            invariant
                len == d.len(),
                d == self.durs@,
                from == self.i,
                limit == self.duration@,
                self.wf(),
                total == window(d, from, limit, 0, 0, 0),
                sum@ <= max_span_nanos(),
                k <= len,
                !done ==> total == window(d, from, limit, k as nat, sum@, count as nat),
                done ==> total == (sum@, count as nat),
            decreases len - k, if done {
                0int
            } else {
                1int
            },
        {
            let idx = (self.i + len - k) % len;
            let dur = self.durs[idx];
            assert(dur == ring_at(d, from, k as int));
            if dur.is_zero() {
                done = true;
            } else {
                proof {
                    lemma_window_step(d, from, limit, k as nat, sum@, count as nat);
                }
                match sum.checked_add(dur) {
                    Some(s) => {
                        sum = s;
                    },
                    None => {
                        return None;
                    },
                }
                if count == u32::MAX {
                    return None;
                }
                count = count + 1;
                if sum.longer_than(&self.duration) {
                    done = true;
                }
                k = k + 1;
            }
        }
        Some((sum, count))
    }

    /// Whether `avg` may be called: the spans it averages add up to no more
    /// than the longest span, and there are no more than `u32::MAX` of them.
    pub fn avg_defined(&self) -> (r: bool)
        requires
            self.wf(),
        ensures
            r == (self.avg_window().0 <= max_span_nanos() && self.avg_window().1 <= u32::MAX),
    {
        self.gather().is_some()
    }

    /// The mean of the spans in the averaging window (see `window`), going
    /// back through the ring from the newest span; zero when the window is
    /// empty.
    pub fn avg(&self) -> (r: Span)
        requires
            self.wf(),
            self.avg_window().0 <= max_span_nanos(),
            self.avg_window().1 <= u32::MAX,
        ensures
            self.avg_window().1 == 0 ==> r@ == 0,
            self.avg_window().1 > 0 ==> r@ == duration_div(
                self.avg_window().0,
                self.avg_window().1 as u32,
            ),
    {
        match self.gather() {
            Some((sum, count)) => match span_checked_div(sum, count) {
                Some(q) => q,
                None => Span::zero(),
            },
            None => {
                proof {
                    assert(false);
                }
                Span::zero()
            },
        }
    }
}

/// `avg` averages at most as many spans as the timer stores, and they add
/// up to at most the averaging span plus one more span: the mean is taken
/// roughly over the averaging span.
pub proof fn lemma_avg_window_bounds(t: Timer, m: nat)
    requires
        forall|j: int| 0 <= j < t.durations().len() ==> #[trigger] t.durations()[j]@ <= m,
    ensures
        t.avg_window().1 <= t.durations().len(),
        t.avg_window().0 <= t.averaging_span()@ + m,
{
    lemma_window_bounds(t.durations(), t.slot() as int, t.averaging_span()@, 0, 0, 0, m);
}

/// The ring of a timer whose slots started as `base`, after the spans of
/// `ps` were pushed in order: the `q`-th push (from 1) goes to slot `q % n`.
pub open spec fn ring_after(base: Seq<Span>, ps: Seq<Span>) -> Seq<Span>
    decreases ps.len(),
{
    if ps.len() == 0 {
        base
    } else {
        ring_after(base, ps.drop_last()).update((ps.len() % base.len()) as int, ps.last())
    }
}

/// Total and count of the newest of the spans pushed in order `ps`, taken
/// newest first from the `j`-th newest on, with `sum` and `count` gathered so
/// far: it takes at most `c` spans and stops right after the total has
/// passed `limit`.
pub open spec fn newest_window(ps: Seq<Span>, c: nat, limit: nat, j: nat, sum: nat, count: nat) -> (
    nat,
    nat,
)
    decreases c - j,
{
    if j >= c {
        (sum, count)
    } else if sum + ps[ps.len() - 1 - j]@ > limit {
        (sum + ps[ps.len() - 1 - j]@, count + 1)
    } else {
        newest_window(ps, c, limit, j + 1, sum + ps[ps.len() - 1 - j]@, count + 1)
    }
}

proof fn lemma_ring_after_len(base: Seq<Span>, ps: Seq<Span>)
    requires
        base.len() > 0,
    ensures
        ring_after(base, ps).len() == base.len(),
    decreases ps.len(),
{
    if ps.len() > 0 {
        lemma_ring_after_len(base, ps.drop_last());
    }
}

/// The `q`-th push is still in its slot as long as fewer than `n` pushes
/// followed it.
proof fn lemma_ring_after_at(base: Seq<Span>, ps: Seq<Span>, q: int)
    requires
        base.len() > 0,
        1 <= q <= ps.len(),
        ps.len() - q < base.len(),
    ensures
        ring_after(base, ps)[q % (base.len() as int)] == ps[q - 1],
    decreases ps.len(),
{
    let n = base.len() as int;
    let m = ps.len() as int;
    lemma_ring_after_len(base, ps.drop_last());
    if q < m {
        assert(q % n != m % n) by {
            vstd::arithmetic::div_mod::lemma_fundamental_div_mod(q, n);
            vstd::arithmetic::div_mod::lemma_fundamental_div_mod(m, n);
            if q % n == m % n {
                assert(n * (m / n) - n * (q / n) == m - q);
                assert(n * (m / n - q / n) == m - q) by (nonlinear_arith)
                    requires
                        n * (m / n) - n * (q / n) == m - q,
                ;
                assert(false) by (nonlinear_arith)
                    requires
                        n * (m / n - q / n) == m - q,
                        0 < m - q < n,
                ;
            }
        }
        lemma_ring_after_at(base, ps.drop_last(), q);
    }
}

/// Slot 0 keeps its first value while fewer than `n` spans were pushed.
proof fn lemma_ring_after_unfilled(base: Seq<Span>, ps: Seq<Span>)
    requires
        base.len() > 0,
        ps.len() < base.len(),
    ensures
        ring_after(base, ps)[0] == base[0],
    decreases ps.len(),
{
    if ps.len() > 0 {
        vstd::arithmetic::div_mod::lemma_small_mod(ps.len(), base.len());
        lemma_ring_after_len(base, ps.drop_last());
        lemma_ring_after_unfilled(base, ps.drop_last());
    }
}

/// A push stores its span in the slot after the newest one, as `push` does.
pub proof fn lemma_push_extends_ring(base: Seq<Span>, ps: Seq<Span>, p: Span)
    requires
        base.len() > 0,
    ensures
        ring_after(base, ps.push(p)) == ring_after(base, ps).update(
            (((ps.len() % base.len()) + 1) % base.len()) as int,
            p,
        ),
        ((ps.len() % base.len()) + 1) % base.len() == (ps.len() + 1) % base.len(),
{
    let n = base.len() as int;
    let m = ps.len() as int;
    assert(ps.push(p).drop_last() =~= ps);
    vstd::arithmetic::div_mod::lemma_fundamental_div_mod(m, n);
    vstd::arithmetic::div_mod::lemma_mod_multiples_vanish(m / n, m % n + 1, n);
    assert(m + 1 == n * (m / n) + (m % n + 1));
}

/// The ring position `k` slots before the newest push holds the `k`-th
/// newest span.
proof fn lemma_ring_at_newest(base: Seq<Span>, ps: Seq<Span>, k: int)
    requires
        base.len() > 0,
        0 <= k < ps.len(),
        k < base.len(),
    ensures
        ring_at(ring_after(base, ps), (ps.len() % base.len()) as int, k) == ps[ps.len() - 1 - k],
{
    let n = base.len() as int;
    let m = ps.len() as int;
    lemma_ring_after_len(base, ps);
    vstd::arithmetic::div_mod::lemma_fundamental_div_mod(m, n);
    vstd::arithmetic::div_mod::lemma_mod_multiples_vanish(m / n - 1, m % n + n - k, n);
    assert(m - k == n * (m / n - 1) + (m % n + n - k)) by (nonlinear_arith)
        requires
            m == n * (m / n) + (m % n),
    ;
    lemma_ring_after_at(base, ps, m - k);
}

proof fn lemma_window_matches_newest(
    base: Seq<Span>,
    ps: Seq<Span>,
    limit: nat,
    k: nat,
    sum: nat,
    count: nat,
)
    requires
        base.len() > 0,
        forall|j: int| 0 <= j < base.len() ==> #[trigger] base[j]@ == 0,
        forall|j: int| 0 <= j < ps.len() ==> #[trigger] ps[j]@ > 0,
        k <= min_nat(ps.len(), base.len()),
    ensures
        window(ring_after(base, ps), (ps.len() % base.len()) as int, limit, k, sum, count)
            == newest_window(ps, min_nat(ps.len(), base.len()), limit, k, sum, count),
    decreases min_nat(ps.len(), base.len()) - k,
{
    let n = base.len() as int;
    let m = ps.len() as int;
    let c = min_nat(ps.len(), base.len());
    let durs = ring_after(base, ps);
    let from = (ps.len() % base.len()) as int;
    lemma_ring_after_len(base, ps);
    if k < c {
        lemma_ring_at_newest(base, ps, k as int);
        assert(ps[m - 1 - k]@ > 0);
        let v = ps[m - 1 - k]@;
        if sum + v <= limit {
            lemma_window_matches_newest(base, ps, limit, k + 1, sum + v, count + 1);
        }
    } else if m < n {
        vstd::arithmetic::div_mod::lemma_small_mod(ps.len(), base.len());
        assert((from + n - k) % n == 0) by {
            vstd::arithmetic::div_mod::lemma_mod_self_0(n);
        }
        lemma_ring_after_unfilled(base, ps);
    }
}

/// A timer whose ring is `ring_after(base, ps)`, with the newest span in
/// slot `ps.len() % n`, is in that form for `ps.push(p)` after `push(p)`.
pub proof fn lemma_timer_after_push(
    before: Timer,
    after: Timer,
    base: Seq<Span>,
    ps: Seq<Span>,
    p: Span,
)
    requires
        base.len() > 0,
        before.durations() == ring_after(base, ps),
        before.slot() == ps.len() % base.len(),
        after.slot() == (before.slot() + 1) % (before.durations().len() as int),
        after.durations() == before.durations().update(after.slot() as int, p),
    ensures
        after.durations() == ring_after(base, ps.push(p)),
        after.slot() == ps.push(p).len() % base.len(),
{
    lemma_ring_after_len(base, ps);
    lemma_push_extends_ring(base, ps, p);
}

/// The smaller of `a` and `b`.
pub open spec fn min_nat(a: nat, b: nat) -> nat {
    if a < b {
        a
    } else {
        b
    }
}

/// After a timer with `n` empty slots had the non-zero spans `ps` pushed,
/// `avg` averages the newest spans that roughly cover the averaging span:
/// newest first, at most as many as are stored, stopping right after their
/// total passes `limit`; and that window is empty exactly when nothing was
/// pushed.
pub proof fn lemma_avg_window_of_pushes(base: Seq<Span>, ps: Seq<Span>, limit: nat)
    requires
        base.len() > 0,
        forall|j: int| 0 <= j < base.len() ==> #[trigger] base[j]@ == 0,
        forall|j: int| 0 <= j < ps.len() ==> #[trigger] ps[j]@ > 0,
    ensures
        window(ring_after(base, ps), (ps.len() % base.len()) as int, limit, 0, 0, 0)
            == newest_window(ps, min_nat(ps.len(), base.len()), limit, 0, 0, 0),
        (window(ring_after(base, ps), (ps.len() % base.len()) as int, limit, 0, 0, 0).1 == 0)
            <==> ps.len() == 0,
{
    lemma_window_matches_newest(base, ps, limit, 0, 0, 0);
    if ps.len() > 0 {
        let v = ps[ps.len() - 1]@;
        if v <= limit {
            lemma_newest_window_grows(ps, min_nat(ps.len(), base.len()), limit, 1, v, 1);
        }
    }
}

proof fn lemma_newest_window_grows(ps: Seq<Span>, c: nat, limit: nat, j: nat, sum: nat, count: nat)
    ensures
        newest_window(ps, c, limit, j, sum, count).1 >= count,
    decreases c - j,
{
    if j < c && sum + ps[ps.len() - 1 - j]@ <= limit {
        lemma_newest_window_grows(ps, c, limit, j + 1, sum + ps[ps.len() - 1 - j]@, count + 1);
    }
}

} // verus!
