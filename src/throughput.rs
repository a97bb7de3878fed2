use std::collections::VecDeque;
use vstd::prelude::*;

verus! {

/// Nominal length of one accumulation window, in milliseconds.
pub const WINDOW_MS: u64 = 1000;

/// How many closed windows the rolling history keeps.
pub const WINDOW_CAPACITY: usize = 10;

/// Byte counters shared by every worker of one transfer.
///
/// Times are milliseconds on a monotonic clock chosen by the caller.
pub struct ThroughputState {
    bytes_in_current_window: u64,
    recent_windows: VecDeque<u64>,
    window_start: u64,
    total_bytes_downloaded: u64,
}

/// The mathematical model of `ThroughputState`.
pub struct ThroughputView {
    pub current: nat,
    pub recent: Seq<nat>,
    pub window_start: nat,
    pub total: nat,
}

/// Sum of a sequence of byte counts.
pub open spec fn sum_of(s: Seq<nat>) -> nat
    decreases s.len(),
{
    if s.len() == 0 {
        0
    } else {
        sum_of(s.drop_last()) + s.last()
    }
}

/// Milliseconds from `start` to `now`; a `now` before `start` counts as none.
pub open spec fn elapsed(start: nat, now: nat) -> nat {
    if now >= start {
        (now - start) as nat
    } else {
        0
    }
}

/// Appends a closed window to the history, dropping the oldest entry once the
/// history would exceed its capacity.
pub open spec fn push_window(recent: Seq<nat>, w: nat) -> Seq<nat> {
    let pushed = recent.push(w);
    if pushed.len() > WINDOW_CAPACITY {
        pushed.drop_first()
    } else {
        pushed
    }
}

/// The state after recording a chunk of `n` bytes at time `now`.
pub open spec fn after_record(v: ThroughputView, n: nat, now: nat) -> ThroughputView {
    let current = v.current + n;
    if elapsed(v.window_start, now) >= WINDOW_MS {
        ThroughputView {
            current: 0,
            recent: push_window(v.recent, current),
            window_start: now,
            total: v.total + n,
        }
    } else {
        ThroughputView { current, recent: v.recent, window_start: v.window_start, total: v.total + n }
    }
}

/// Floor of the mean of the closed windows; zero when there are none.
pub open spec fn average_of(recent: Seq<nat>) -> nat {
    if recent.len() == 0 {
        0
    } else {
        sum_of(recent) / recent.len()
    }
}

pub open spec fn nat_seq(s: Seq<u64>) -> Seq<nat> {
    s.map_values(|x: u64| x as nat)
}

/// A consistent copy of the counters that readers need.
pub struct Snapshot {
    pub recent_windows: Vec<u64>,
    pub total_bytes_downloaded: u64,
}

impl Snapshot {
    /// Floor of the mean byte count of the closed windows in the copy; zero
    /// when the history is empty.
    pub fn average(&self) -> (r: u64)
        requires
            sum_of(nat_seq(self.recent_windows@)) <= u64::MAX,
        ensures
            r == average_of(nat_seq(self.recent_windows@)),
            self.recent_windows@.len() == 0 ==> r == 0,
    {
        let ghost all = nat_seq(self.recent_windows@);
        let mut sum: u64 = 0;
        let mut i: usize = 0;
        while i < self.recent_windows.len()
            invariant
                all == nat_seq(self.recent_windows@),
                sum_of(all) <= u64::MAX,
                i <= self.recent_windows.len(),
                sum == sum_of(all.take(i as int)),
            decreases self.recent_windows.len() - i,
        {
            proof {
                lemma_sum_of_push(all.take(i as int), all[i as int]);
                assert(all.take(i as int).push(all[i as int]) =~= all.take(i + 1));
                lemma_sum_of_prefix(all, i + 1);
            }
            sum = sum + self.recent_windows[i];
            i = i + 1;
        }
        assert(all.take(i as int) =~= all);
        let count: u64 = self.recent_windows.len() as u64;
        if count == 0 {
            0
        } else {
            sum / count
        }
    }
}

impl View for ThroughputState {
    type V = ThroughputView;

    closed spec fn view(&self) -> ThroughputView {
        ThroughputView {
            current: self.bytes_in_current_window as nat,
            recent: nat_seq(self.recent_windows@),
            window_start: self.window_start as nat,
            total: self.total_bytes_downloaded as nat,
        }
    }
}

impl ThroughputView {
    /// The history is bounded, and the closed windows and the open one never
    /// hold more bytes than were ever recorded.
    pub open spec fn wf(self) -> bool {
        &&& self.recent.len() <= WINDOW_CAPACITY
        &&& sum_of(self.recent) + self.current <= self.total
    }
}

impl ThroughputState {
    pub open spec fn wf(&self) -> bool {
        self@.wf()
    }

    /// A fresh state whose first window opens at `now_ms`.
    pub fn new(now_ms: u64) -> (r: ThroughputState)
        ensures
            r.wf(),
            r@ == (ThroughputView { current: 0, recent: Seq::empty(), window_start: now_ms as nat, total: 0 }),
    {
        let r = ThroughputState {
            bytes_in_current_window: 0,
            recent_windows: VecDeque::with_capacity(WINDOW_CAPACITY),
            window_start: now_ms,
            total_bytes_downloaded: 0,
        };
        assert(r@.recent =~= Seq::<nat>::empty());
        r
    }

    /// Bytes recorded so far.
    pub fn total_bytes_downloaded(&self) -> (r: u64)
        ensures
            r == self@.total,
    {
        self.total_bytes_downloaded
    }

    /// Bytes recorded since the current window opened.
    pub fn bytes_in_current_window(&self) -> (r: u64)
        ensures
            r == self@.current,
    {
        self.bytes_in_current_window
    }

    /// When the current window opened.
    pub fn window_start(&self) -> (r: u64)
        ensures
            r == self@.window_start,
    {
        self.window_start
    }

    /// Copies the history of closed windows and the running total.
    pub fn snapshot(&self) -> (r: Snapshot)
        requires
            self.wf(),
        ensures
            nat_seq(r.recent_windows@) == self@.recent,
            r.total_bytes_downloaded == self@.total,
            sum_of(nat_seq(r.recent_windows@)) <= r.total_bytes_downloaded,
    {
        let mut windows: Vec<u64> = Vec::with_capacity(self.recent_windows.len());
        let mut i: usize = 0;
        while i < self.recent_windows.len()
            invariant
                i <= self.recent_windows@.len(),
                windows@ == self.recent_windows@.take(i as int),
            decreases self.recent_windows@.len() - i,
        {
            windows.push(self.recent_windows[i]);
            i = i + 1;
            assert(windows@ =~= self.recent_windows@.take(i as int));
        }
        assert(windows@ =~= self.recent_windows@);
        Snapshot { recent_windows: windows, total_bytes_downloaded: self.total_bytes_downloaded }
    }

    /// Records a chunk of `n` bytes that arrived at `now_ms`. Once a window
    /// has been open for at least `WINDOW_MS`, it is closed (this chunk
    /// included) and pushed onto the history, and a new one opens at `now_ms`.
    pub fn record(&mut self, n: u64, now_ms: u64)
        requires
            old(self).wf(),
            old(self)@.total + n <= u64::MAX,
        ensures
            final(self).wf(),
            final(self)@ == after_record(old(self)@, n as nat, now_ms as nat),
    {
        self.total_bytes_downloaded = self.total_bytes_downloaded + n;
        self.bytes_in_current_window = self.bytes_in_current_window + n;
        if now_ms >= self.window_start && now_ms - self.window_start >= WINDOW_MS {
            let closed: u64 = self.bytes_in_current_window;
            let ghost before = self.recent_windows@;
            self.recent_windows.push_back(closed);
            proof {
                lemma_nat_seq_push(before, closed);
                lemma_sum_of_push(nat_seq(before), closed as nat);
            }
            if self.recent_windows.len() > WINDOW_CAPACITY {
                let ghost pushed = self.recent_windows@;
                self.recent_windows.pop_front();
                proof {
                    lemma_nat_seq_drop_first(pushed);
                    lemma_sum_of_drop_first(nat_seq(pushed));
                }
            }
            self.bytes_in_current_window = 0;
            self.window_start = now_ms;
        }
    }
}

/// The state after recording each `(n, now)` of `events` in order.
pub open spec fn replay(v: ThroughputView, events: Seq<(nat, nat)>) -> ThroughputView
    decreases events.len(),
{
    if events.len() == 0 {
        v
    } else {
        let (n, now) = events.last();
        after_record(replay(v, events.drop_last()), n, now)
    }
}

/// Total of the chunk sizes in `events`.
pub open spec fn sum_sizes(events: Seq<(nat, nat)>) -> nat
    decreases events.len(),
{
    if events.len() == 0 {
        0
    } else {
        sum_sizes(events.drop_last()) + events.last().0
    }
}

/// Whatever the chunk sizes and whenever they arrive, the running total grows
/// by exactly the sum of the sizes recorded; window flushes never change it.
pub proof fn lemma_total_is_sum_of_records(v: ThroughputView, events: Seq<(nat, nat)>)
    ensures
        replay(v, events).total == v.total + sum_sizes(events),
    decreases events.len(),
{
    if events.len() > 0 {
        lemma_total_is_sum_of_records(v, events.drop_last());
    }
}

/// A record never grows a history of at most `WINDOW_CAPACITY` windows past
/// that capacity.
pub proof fn lemma_record_keeps_history_bounded(v: ThroughputView, n: nat, now: nat)
    requires
        v.recent.len() <= WINDOW_CAPACITY,
    ensures
        after_record(v, n, now).recent.len() <= WINDOW_CAPACITY,
{
}

/// Whatever the chunk sizes and arrival times, a history that starts within
/// `WINDOW_CAPACITY` windows stays within it.
pub proof fn lemma_history_stays_bounded(v: ThroughputView, events: Seq<(nat, nat)>)
    requires
        v.recent.len() <= WINDOW_CAPACITY,
    ensures
        replay(v, events).recent.len() <= WINDOW_CAPACITY,
    decreases events.len(),
{
    if events.len() > 0 {
        lemma_history_stays_bounded(v, events.drop_last());
        let (n, now) = events.last();
        lemma_record_keeps_history_bounded(replay(v, events.drop_last()), n, now);
    }
}

/// The last `WINDOW_CAPACITY` entries of `s`, in order (all of `s` if shorter).
pub open spec fn last_windows(s: Seq<nat>) -> Seq<nat> {
    if s.len() > WINDOW_CAPACITY {
        s.subrange(s.len() - WINDOW_CAPACITY, s.len() as int)
    } else {
        s
    }
}

/// The chunk sizes of `events`, in order.
pub open spec fn sizes_of(events: Seq<(nat, nat)>) -> Seq<nat> {
    events.map_values(|e: (nat, nat)| e.0)
}

/// Each record of `events` comes at least `WINDOW_MS` after the window that
/// it finds open began, so each one closes a window.
pub open spec fn every_record_flushes(v: ThroughputView, events: Seq<(nat, nat)>) -> bool {
    &&& events.len() > 0 ==> events[0].1 >= v.window_start + WINDOW_MS
    &&& forall|j: int|
        0 < j < events.len() ==> #[trigger] events[j].1 >= events[j - 1].1 + WINDOW_MS
}

/// Records that each close a window, starting from an empty open window,
/// push their own sizes; the history then holds the last `WINDOW_CAPACITY`
/// closed windows in the order they closed, the oldest ones evicted first.
pub proof fn lemma_flushes_keep_last_windows(v: ThroughputView, events: Seq<(nat, nat)>)
    requires
        v.current == 0,
        v.recent.len() <= WINDOW_CAPACITY,
        every_record_flushes(v, events),
    ensures
        replay(v, events).recent == last_windows(v.recent + sizes_of(events)),
        replay(v, events).current == 0,
        replay(v, events).window_start == if events.len() > 0 {
            events.last().1
        } else {
            v.window_start
        },
    decreases events.len(),
{
    if events.len() == 0 {
        assert(v.recent + sizes_of(events) =~= v.recent);
    } else {
        let prev = events.drop_last();
        assert forall|j: int| 0 < j < prev.len() implies #[trigger] prev[j].1 >= prev[j - 1].1
            + WINDOW_MS by {
            assert(prev[j] == events[j] && prev[j - 1] == events[j - 1]);
        }
        lemma_flushes_keep_last_windows(v, prev);
        if prev.len() > 0 {
            assert(events[events.len() - 1].1 >= events[events.len() - 2].1 + WINDOW_MS);
        }
        let x = v.recent + sizes_of(prev);
        let (n, now) = events.last();
        assert(v.recent + sizes_of(events) =~= x.push(n));
        lemma_push_window_keeps_last(x, n);
    }
}

proof fn lemma_push_window_keeps_last(s: Seq<nat>, w: nat)
    ensures
        push_window(last_windows(s), w) == last_windows(s.push(w)),
{
    if s.len() > WINDOW_CAPACITY {
        assert(last_windows(s).push(w).drop_first() =~= last_windows(s.push(w)));
    } else if s.len() == WINDOW_CAPACITY {
        assert(s.push(w).drop_first() =~= last_windows(s.push(w)));
    }
}

/// A flush on a full history evicts the oldest window and appends the newly
/// closed one, so the history stays at capacity in arrival order.
pub proof fn lemma_flush_evicts_oldest(v: ThroughputView, n: nat, now: nat)
    requires
        v.recent.len() == WINDOW_CAPACITY,
        elapsed(v.window_start, now) >= WINDOW_MS,
    ensures
        after_record(v, n, now).recent == v.recent.drop_first().push(v.current + n),
        after_record(v, n, now).recent.len() == WINDOW_CAPACITY,
        after_record(v, n, now).current == 0,
{
    assert(v.recent.push(v.current + n).drop_first() =~= v.recent.drop_first().push(
        v.current + n,
    ));
}

/// A record that finds its window open for less than `WINDOW_MS` only adds to
/// the open window and the total; the history is left as it was.
pub proof fn lemma_open_window_accumulates(v: ThroughputView, n: nat, now: nat)
    requires
        elapsed(v.window_start, now) < WINDOW_MS,
    ensures
        after_record(v, n, now).current == v.current + n,
        after_record(v, n, now).total == v.total + n,
        after_record(v, n, now).recent == v.recent,
        after_record(v, n, now).window_start == v.window_start,
{
}

/// Appending a window adds exactly its bytes to the sum.
proof fn lemma_sum_of_push(s: Seq<nat>, w: nat)
    ensures
        sum_of(s.push(w)) == sum_of(s) + w,
{
    assert(s.push(w).drop_last() =~= s);
}

proof fn lemma_nat_seq_push(s: Seq<u64>, x: u64)
    ensures
        nat_seq(s.push(x)) == nat_seq(s).push(x as nat),
{
    assert(nat_seq(s.push(x)) =~= nat_seq(s).push(x as nat));
}

proof fn lemma_nat_seq_drop_first(s: Seq<u64>)
    requires
        s.len() > 0,
    ensures
        nat_seq(s.drop_first()) == nat_seq(s).drop_first(),
{
    assert(nat_seq(s.drop_first()) =~= nat_seq(s).drop_first());
}

/// A prefix never holds more bytes than the whole sequence.
proof fn lemma_sum_of_prefix(s: Seq<nat>, i: int)
    requires
        0 <= i <= s.len(),
    ensures
        sum_of(s.take(i)) <= sum_of(s),
    decreases s.len(),
{
    if i < s.len() {
        lemma_sum_of_prefix(s.drop_last(), i);
        assert(s.drop_last().take(i) =~= s.take(i));
    } else {
        assert(s.take(i) =~= s);
    }
}

/// Dropping the first entry removes exactly its bytes from the sum.
proof fn lemma_sum_of_drop_first(s: Seq<nat>)
    requires
        s.len() > 0,
    ensures
        sum_of(s) == s[0] + sum_of(s.drop_first()),
    decreases s.len(),
{
    if s.len() > 1 {
        lemma_sum_of_drop_first(s.drop_last());
        assert(s.drop_last().drop_first() =~= s.drop_first().drop_last());
        assert(s.drop_first().last() == s.last());
        assert(s.drop_last()[0] == s[0]);
        assert(sum_of(s.drop_first()) == sum_of(s.drop_first().drop_last()) + s.last());
    } else {
        assert(s.drop_first().len() == 0);
        assert(s.drop_last().len() == 0);
        assert(sum_of(s) == sum_of(s.drop_last()) + s[0]);
    }
}

} // verus!
