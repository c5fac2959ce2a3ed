use vstd::prelude::*;

verus! {

/// Number of milliseconds between two accepted rising edges of the same
/// debouncer: an edge-triggered side effect only needs to run once per
/// stretch of repeated `true` signals.
pub const DEFAULT_COOLDOWN_MS: u64 = 5000;

/// Converts a noisy boolean detector stream into single-shot rising-edge
/// events.
///
/// Timestamps are plain milliseconds handed in by the caller, so the whole
/// automaton is a pure function of its inputs. The state is an explicit
/// automaton rather than bare timestamp arithmetic:
///
/// - before the first accepted edge (`fired_once == false`), any `true`
///   input fires immediately: process start counts as "already cooled
///   down", so the first legitimate event is never suppressed;
/// - afterwards a `true` input fires exactly when at least `period`
///   milliseconds have passed since the last *accepted* edge. Suppressed
///   `true` inputs leave the state untouched, so a long stretch of `true`
///   re-fires once per cooldown period and never more often.
pub struct DebounceRisingEdge {
    /// Minimum number of milliseconds between two accepted rising edges.
    pub period: u64,
    /// Whether any rising edge has been accepted yet.
    pub fired_once: bool,
    /// Timestamp in milliseconds of the last accepted rising edge;
    /// meaningful only once `fired_once` is set.
    pub last_rising: u64,
}

impl DebounceRisingEdge {
    /// Whether a call of `feed(event, now)` in state `self` accepts a rising
    /// edge.
    pub open spec fn spec_fires(self, event: bool, now: u64) -> bool {
        event && (!self.fired_once || now >= self.last_rising + self.period)
    }

    /// The state after a call of `feed(event, now)` in state `self`.
    pub open spec fn spec_step(self, event: bool, now: u64) -> DebounceRisingEdge {
        if self.spec_fires(event, now) {
            DebounceRisingEdge { fired_once: true, last_rising: now, ..self }
        } else {
            self
        }
    }

    pub fn new() -> (r: DebounceRisingEdge)
        ensures
            r.period == DEFAULT_COOLDOWN_MS,
            !r.fired_once,
    {
        DebounceRisingEdge { period: DEFAULT_COOLDOWN_MS, fired_once: false, last_rising: 0 }
    }

    /// Like `new`, but with a caller-chosen cooldown period in milliseconds.
    pub fn with_period(period: u64) -> (r: DebounceRisingEdge)
        ensures
            r.period == period,
            !r.fired_once,
    {
        DebounceRisingEdge { period, fired_once: false, last_rising: 0 }
    }

    /// Feed one sample of the boolean detector stream, taken at time `now`
    /// (milliseconds). Returns `true` exactly on an accepted rising edge.
    ///
    /// A `false` sample never fires and leaves the state unchanged; a
    /// suppressed `true` sample leaves the state unchanged as well, so the
    /// cooldown is always measured from the last accepted edge.
    pub fn feed(&mut self, event: bool, now: u64) -> (fired: bool)
        ensures
            fired == old(self).spec_fires(event, now),
            *final(self) == old(self).spec_step(event, now),
    {
        let fired = event && (!self.fired_once || (now >= self.last_rising
            && now - self.last_rising >= self.period));
        if fired {
            self.fired_once = true;
            self.last_rising = now;
        }
        fired
    }
}

/// A false sample never fires and leaves the debouncer unchanged, whatever
/// its state and whatever the clock reads.
pub proof fn lemma_false_never_fires(s: DebounceRisingEdge, now: u64)
    ensures
        !s.spec_fires(false, now),
        s.spec_step(false, now) == s,
{
}

/// The state after feeding a whole sequence of `(event, timestamp)` samples,
/// oldest first, starting from `s`.
pub open spec fn spec_run(s: DebounceRisingEdge, feeds: Seq<(bool, u64)>) -> DebounceRisingEdge
    decreases feeds.len(),
{
    if feeds.len() == 0 {
        s
    } else {
        spec_run(s, feeds.drop_last()).spec_step(feeds.last().0, feeds.last().1)
    }
}

/// Whether the sample at position `i` of `feeds` is accepted as a rising
/// edge when the whole sequence is fed starting from `s`.
pub open spec fn spec_fires_at(s: DebounceRisingEdge, feeds: Seq<(bool, u64)>, i: int) -> bool {
    spec_run(s, feeds.take(i)).spec_fires(feeds[i].0, feeds[i].1)
}

/// Feeding samples never changes the cooldown period.
pub proof fn lemma_run_keeps_period(s: DebounceRisingEdge, feeds: Seq<(bool, u64)>)
    ensures
        spec_run(s, feeds).period == s.period,
    decreases feeds.len(),
{
    if feeds.len() > 0 {
        lemma_run_keeps_period(s, feeds.drop_last());
    }
}

/// After the sample at position `i` fires, every later state remembers an
/// accepted edge no older than that sample's timestamp.
proof fn lemma_last_rising_after_fire(
    s: DebounceRisingEdge,
    feeds: Seq<(bool, u64)>,
    i: int,
    k: int,
)
    requires
        0 <= i < feeds.len(),
        spec_fires_at(s, feeds, i),
        i < k <= feeds.len(),
    ensures
        spec_run(s, feeds.take(k)).fired_once,
        spec_run(s, feeds.take(k)).last_rising >= feeds[i].1,
    decreases k,
{
    assert(feeds.take(k).drop_last() =~= feeds.take(k - 1));
    if k == i + 1 {
        assert(spec_run(s, feeds.take(k))
            == spec_run(s, feeds.take(i)).spec_step(feeds[i].0, feeds[i].1));
    } else {
        lemma_last_rising_after_fire(s, feeds, i, k - 1);
    }
}

/// Two accepted rising edges are always at least one cooldown period apart:
/// for every starting state, every sequence of samples and every pair of
/// positions that both fire, the later timestamp exceeds the earlier one by
/// at least the period. In particular, over continuously-`true` input the
/// debouncer fires at most once in any half-open time window whose length is
/// the cooldown period.
pub proof fn lemma_cooldown_spacing(
    s: DebounceRisingEdge,
    feeds: Seq<(bool, u64)>,
    i: int,
    j: int,
)
    requires
        0 <= i < j < feeds.len(),
        spec_fires_at(s, feeds, i),
        spec_fires_at(s, feeds, j),
    ensures
        feeds[j].1 >= feeds[i].1 + s.period,
{
    lemma_last_rising_after_fire(s, feeds, i, j);
    lemma_run_keeps_period(s, feeds.take(j));
}

} // verus!
