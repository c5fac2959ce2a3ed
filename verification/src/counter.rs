use std::collections::VecDeque;
use vstd::prelude::*;

verus! {

/// Number of milliseconds of history the rate window keeps by default.
pub const DEFAULT_WINDOW_MS: u64 = 60_000;

/// A sequence of timestamps that never increases from front to back:
/// the newest entry stands first, the oldest last.
pub open spec fn sorted_newest_first(s: Seq<u64>) -> bool {
    forall|i: int, j: int| 0 <= i <= j < s.len() ==> #[trigger] s[i] >= #[trigger] s[j]
}

/// The window that remains after evicting old timestamps from the back:
/// entries leave while more than two remain and the span between the newest
/// and the oldest reaches `max`. Two entries always stay, whatever their
/// span, so a rate can still be computed.
pub open spec fn spec_evict(s: Seq<u64>, max: u64) -> Seq<u64>
    decreases s.len(),
{
    if s.len() > 2 && s[0] - s.last() >= max {
        spec_evict(s.drop_last(), max)
    } else {
        s
    }
}

/// Counts events over a bounded sliding window of timestamps to estimate an
/// event frequency, such as frames per second.
///
/// Timestamps are plain milliseconds handed in by the caller. The window
/// keeps its entries newest first; construction seeds it with one timestamp,
/// and every `feed` leaves at least two behind, so the span between the
/// newest and the oldest entry is always defined.
pub struct EventRateCounter {
    /// Maximum span in milliseconds between the newest and the oldest kept
    /// timestamp, beyond which old entries are evicted.
    max_duration: u64,
    /// The kept timestamps in milliseconds, newest first.
    instants: VecDeque<u64>,
}

impl View for EventRateCounter {
    type V = Seq<u64>;

    closed spec fn view(&self) -> Seq<u64> {
        self.instants@
    }
}

impl EventRateCounter {
    /// The configured maximum span of the window in milliseconds.
    pub closed spec fn spec_max_duration(&self) -> u64 {
        self.max_duration
    }

    /// The window is never empty and its timestamps never increase from the
    /// newest entry to the oldest.
    pub open spec fn wf(&self) -> bool {
        &&& self@.len() >= 1
        &&& sorted_newest_first(self@)
    }

    /// The span in milliseconds between the newest and the oldest kept
    /// timestamp.
    pub open spec fn spec_total_duration(&self) -> int {
        self@[0] - self@[self@.len() - 1]
    }

    /// Create a counter whose window starts with the single timestamp `now`
    /// (milliseconds) and keeps `DEFAULT_WINDOW_MS` of history.
    pub fn new(now: u64) -> (r: EventRateCounter)
        ensures
            r@ =~= seq![now],
            r.wf(),
            r.spec_max_duration() == DEFAULT_WINDOW_MS,
    {
        let mut instants = VecDeque::new();
        instants.push_front(now);
        EventRateCounter { instants, max_duration: DEFAULT_WINDOW_MS }
    }

    /// The span in milliseconds between the newest and the oldest kept
    /// timestamp.
    pub fn total_duration(&self) -> (r: u64)
        requires
            self.wf(),
        ensures
            r == self.spec_total_duration(),
    {
        let last: usize = self.instants.len() - 1;
        self.instants[0] - self.instants[last]
    }

    /// The number of timestamps the window currently holds.
    pub fn count(&self) -> (r: usize)
        ensures
            r == self@.len(),
    {
        self.instants.len()
    }

    /// Record one event at time `now` (milliseconds): push `now` to the
    /// front of the window, then evict entries from the back while more than
    /// two remain and the window's span reaches the configured maximum.
    ///
    /// Afterwards the window always holds at least two timestamps, and if
    /// `now` is strictly newer than the previous newest entry, the window's
    /// span is strictly positive.
    pub fn feed(&mut self, now: u64)
        requires
            old(self).wf(),
            now >= old(self)@[0],
        ensures
            final(self).wf(),
            final(self)@ == spec_evict(seq![now] + old(self)@, old(self).spec_max_duration()),
            final(self)@.len() >= 2,
            final(self)@[0] == now,
            final(self).spec_max_duration() == old(self).spec_max_duration(),
            now > old(self)@[0] ==> final(self).spec_total_duration() > 0,
            final(self)@.len() > 2 ==> final(self).spec_total_duration() < old(
                self,
            ).spec_max_duration(),
    {
        proof {
            lemma_evict_shape(seq![now] + old(self)@, old(self).max_duration);
        }
        self.instants.push_front(now);
        assert(self.instants@ =~= seq![now] + old(self)@);
        assert(sorted_newest_first(self.instants@)) by {
            assert forall|i: int, j: int|
                0 <= i <= j < self.instants@.len() implies #[trigger] self.instants@[i]
                >= #[trigger] self.instants@[j] by {
                if i > 0 {
                    assert(self.instants@[i] == old(self)@[i - 1]);
                    assert(self.instants@[j] == old(self)@[j - 1]);
                } else if j > 0 {
                    assert(old(self)@[0] >= old(self)@[j - 1]);
                }
            }
        }
        let ghost start = self.instants@;
        let mut last: usize = self.instants.len() - 1;
        while self.instants.len() > 2 && self.instants[0] - self.instants[last] >= self.max_duration
            invariant
                last == self.instants@.len() - 1,
                2 <= self.instants@.len() <= start.len(),
                sorted_newest_first(self.instants@),
                self.instants@[0] == start[0],
                self.max_duration == old(self).spec_max_duration(),
                spec_evict(self.instants@, self.max_duration) == spec_evict(
                    start,
                    self.max_duration,
                ),
                self.instants@ == start.take(self.instants@.len() as int),
            decreases self.instants@.len(),
        {
            let ghost before = self.instants@;
            self.instants.pop_back();
            assert(self.instants@ =~= before.drop_last());
            assert(self.instants@ =~= start.take(self.instants@.len() as int));
            last = self.instants.len() - 1;
        }
        assert(self.instants@ == spec_evict(start, self.max_duration));
        proof {
            if now > old(self)@[0] {
                let s = seq![now] + old(self)@;
                let l = spec_evict(s, old(self).max_duration).len() as int;
                assert(self.instants@ == s.take(l));
                assert(self.instants@[l - 1] == s[l - 1]);
                assert(s[l - 1] == old(self)@[l - 2]);
                assert(old(self)@[0] >= old(self)@[l - 2]);
            }
        }
    }

    /// The estimated event rate in milli-events per second: the number of
    /// kept timestamps, divided by the window's span, scaled by one
    /// thousand and rounded down. Returns `None` exactly when the span is
    /// zero, that is, when all kept timestamps are equal and no rate is
    /// defined.
    pub fn get_event_rate_milli_per_second(&self) -> (r: Option<u128>)
        requires
            self.wf(),
        ensures
            match r {
                Some(v) => self.spec_total_duration() > 0 && v == self@.len() as int * 1_000_000
                    / self.spec_total_duration(),
                None => self.spec_total_duration() == 0,
            },
    {
        let span = self.total_duration();
        if span == 0 {
            None
        } else {
            Some((self.instants.len() as u128) * 1_000_000 / (span as u128))
        }
    }
}

/// Eviction always leaves a front portion of the window behind: the result
/// is a prefix of the input, it keeps the newest entry, and it never drops
/// below two entries when the input held at least two.
pub proof fn lemma_evict_shape(s: Seq<u64>, max: u64)
    requires
        s.len() >= 2,
    ensures
        2 <= spec_evict(s, max).len() <= s.len(),
        spec_evict(s, max) == s.take(spec_evict(s, max).len() as int),
        spec_evict(s, max).len() > 2 ==> spec_evict(s, max)[0] - spec_evict(s, max).last() < max,
    decreases s.len(),
{
    if s.len() > 2 && s[0] - s.last() >= max {
        lemma_evict_shape(s.drop_last(), max);
        let l = spec_evict(s, max).len() as int;
        assert(l <= s.drop_last().len());
        assert(s.drop_last().take(l) =~= s.take(l));
    } else {
        assert(s.take(s.len() as int) =~= s);
    }
}

} // verus!
