//! A window of disk events and its summary.

use vstd::prelude::*;
use vstd::multiset::Multiset;
use crate::count::{
    count_where, law_count_is_what_a_filter_leaves, lemma_count_at_most, lemma_count_none,
    lemma_count_same,
};
use crate::event::{DiskEvent, RW_READ, RW_WRITE};

verus! {

/// `sort_unstable` of std: afterwards the numbers stand in ascending order,
/// each as often as before.
#[verifier::external_body]
fn sort(v: &mut Vec<u64>)
    ensures
        ascending(final(v)@),
        final(v)@.to_multiset() == old(v)@.to_multiset(),
{
    v.sort_unstable();
}

/// Whether the numbers stand in ascending order.
pub open spec fn ascending(s: Seq<u64>) -> bool {
    forall|i: int, j: int| 0 <= i <= j < s.len() ==> s[i] <= s[j]
}

/// How many of the numbers are at most `x`.
pub open spec fn at_most(s: Seq<u64>, x: u64) -> nat {
    count_where(s, |v: u64| v <= x)
}

/// Whether `x` is the `percent`-th percentile by nearest rank: the smallest of
/// the numbers that at least `percent` in a hundred of them do not exceed.
/// Without numbers it is 0.
pub open spec fn is_percentile(s: Seq<u64>, percent: nat, x: u64) -> bool {
    if s.len() == 0 {
        x == 0
    } else {
        &&& s.contains(x)
        &&& 100 * at_most(s, x) >= percent * s.len()
        &&& forall|y: u64| #[trigger] s.contains(y) && y < x ==> 100 * at_most(s, y) < percent * s.len()
    }
}

/// Whether `x` is the largest of the numbers; without numbers it is 0.
pub open spec fn is_largest(s: Seq<u64>, x: u64) -> bool {
    if s.len() == 0 {
        x == 0
    } else {
        &&& s.contains(x)
        &&& forall|i: int| 0 <= i < s.len() ==> #[trigger] s[i] <= x
    }
}

/// The latencies of the events, in order.
pub open spec fn latencies_of(events: Seq<DiskEvent>) -> Seq<u64> {
    events.map_values(|ev: DiskEvent| ev.latency_ns)
}

/// The bytes that the events moved.
pub open spec fn bytes_of(events: Seq<DiskEvent>) -> nat
    decreases events.len(),
{
    if events.len() == 0 {
        0
    } else {
        bytes_of(events.drop_last()) + events.last().bytes as nat
    }
}

/// How many events are reads.
pub open spec fn reads_of(events: Seq<DiskEvent>) -> nat {
    count_where(events, |ev: DiskEvent| ev.rw == RW_READ)
}

/// How many events are writes.
pub open spec fn writes_of(events: Seq<DiskEvent>) -> nat {
    count_where(events, |ev: DiskEvent| ev.rw == RW_WRITE)
}

/// How many events failed.
pub open spec fn errors_of(events: Seq<DiskEvent>) -> nat {
    count_where(events, |ev: DiskEvent| ev.error != 0)
}

/// The summary of one window.
#[derive(Debug, Clone, Copy, PartialEq, Eq, Structural)]
pub struct WindowStats {
    pub window_secs: u64,
    pub reqs: u64,
    pub writes: u64,
    pub reads: u64,
    pub others: u64,
    pub bytes: u64,
    pub errors: u64,
    pub p50_ns: u64,
    pub p99_ns: u64,
    pub max_ns: u64,
}

/// Whether `w` is the summary of the events of a window of `secs` seconds. The
/// byte count stops at `u64::MAX`.
pub open spec fn summarizes(w: WindowStats, events: Seq<DiskEvent>, secs: u64) -> bool {
    &&& w.window_secs == secs
    &&& w.reqs == events.len()
    &&& w.reads == reads_of(events)
    &&& w.writes == writes_of(events)
    &&& w.others == events.len() - reads_of(events) - writes_of(events)
    &&& w.bytes == if bytes_of(events) <= u64::MAX {
        bytes_of(events)
    } else {
        u64::MAX as nat
    }
    &&& w.errors == errors_of(events)
    &&& is_percentile(latencies_of(events), 50, w.p50_ns)
    &&& is_percentile(latencies_of(events), 99, w.p99_ns)
    &&& is_largest(latencies_of(events), w.max_ns)
}

/// The events of the window that is under way.
pub struct Window {
    latencies: Vec<u64>,
    reads: u64,
    writes: u64,
    bytes: u64,
    errors: u64,
    events: Ghost<Seq<DiskEvent>>,
}

impl View for Window {
    type V = Seq<DiskEvent>;

    closed spec fn view(&self) -> Seq<DiskEvent> {
        self.events@
    }
}

impl Window {
    /// The counters agree with the events.
    pub closed spec fn wf(self) -> bool {
        &&& self.latencies@ == latencies_of(self@)
        &&& self.reads == reads_of(self@)
        &&& self.writes == writes_of(self@)
        &&& self.reads + self.writes <= self.latencies.len()
        &&& self.bytes == if bytes_of(self@) <= u64::MAX {
            bytes_of(self@)
        } else {
            u64::MAX as nat
        }
        &&& self.errors == errors_of(self@)
        &&& self.errors <= self.latencies.len()
    }

    /// A window without events.
    pub fn new() -> (r: Window)
        ensures
            r.wf(),
            r@ == Seq::<DiskEvent>::empty(),
    {
        let ghost none = Seq::<DiskEvent>::empty();
        assert(latencies_of(none) =~= seq![]);
        Window {
            latencies: Vec::new(),
            reads: 0,
            writes: 0,
            bytes: 0,
            errors: 0,
            events: Ghost(none),
        }
    }

    /// Adds an event to the window.
    pub fn record(&mut self, ev: &DiskEvent)
        requires
            old(self).wf(),
        ensures
            final(self).wf(),
            final(self)@ == old(self)@.push(*ev),
    {
        let ghost all = self@.push(*ev);
        assert(all.drop_last() =~= self@);
        self.latencies.push(ev.latency_ns);
        assert(self.latencies@ =~= latencies_of(all));
        assert(self.latencies.len() == all.len());
        if ev.rw == RW_READ {
            self.reads = self.reads + 1;
        } else if ev.rw == RW_WRITE {
            self.writes = self.writes + 1;
        }
        self.bytes = self.bytes.saturating_add(ev.bytes as u64);
        if ev.error != 0 {
            self.errors = self.errors + 1;
        }
        self.events = Ghost(all);
    }

    /// Ends the window: its summary, with a new window begun.
    pub fn close(&mut self, window_secs: u64) -> (r: WindowStats)
        requires
            old(self).wf(),
        ensures
            summarizes(r, old(self)@, window_secs),
            final(self).wf(),
            final(self)@ == Seq::<DiskEvent>::empty(),
    {
        let ghost events = self@;
        let mut sorted: Vec<u64> = Vec::new();
        sorted.append(&mut self.latencies);
        let ghost unsorted = sorted@;
        assert(unsorted =~= latencies_of(events));
        let reqs: u64 = sorted.len() as u64;
        sort(&mut sorted);
        proof {
            lemma_same_percentiles(unsorted, sorted@);
        }
        let r = WindowStats {
            window_secs,
            reqs,
            writes: self.writes,
            reads: self.reads,
            others: reqs - self.reads - self.writes,
            bytes: self.bytes,
            errors: self.errors,
            p50_ns: percentile(&sorted, 50),
            p99_ns: percentile(&sorted, 99),
            max_ns: largest(&sorted),
        };
        *self = Window::new();
        r
    }
}

/// The percentile of numbers in ascending order.
fn percentile(sorted: &Vec<u64>, percent: u64) -> (r: u64)
    requires
        ascending(sorted@),
        0 < percent <= 100,
    ensures
        is_percentile(sorted@, percent as nat, r),
{
    let n: usize = sorted.len();
    if n == 0 {
        return 0;
    }
    assert(percent * n <= 100 * usize::MAX) by (nonlinear_arith)
        requires
            percent <= 100,
            n <= usize::MAX,
    ;
    let rank: u128 = (percent as u128 * n as u128 + 99) / 100;
    assert(1 <= rank <= n) by (nonlinear_arith)
        requires
            rank == (percent * n + 99) / 100,
            0 < percent <= 100,
            n > 0,
    ;
    let i: usize = (rank - 1) as usize;
    let x: u64 = sorted[i];
    proof {
        let s = sorted@;
        assert(100 * i < percent * n <= 100 * (i + 1)) by (nonlinear_arith)
            requires
                i + 1 == (percent * n + 99) / 100,
        ;
        lemma_at_most_lower(s, x, i as int + 1);
        assert forall|y: u64| #[trigger] s.contains(y) && y < x implies 100 * at_most(s, y)
            < percent * s.len() by {
            lemma_at_most_upper(s, y, i as int);
        }
    }
    x
}

/// The largest of numbers in ascending order.
fn largest(sorted: &Vec<u64>) -> (r: u64)
    requires
        ascending(sorted@),
    ensures
        is_largest(sorted@, r),
{
    if sorted.len() == 0 {
        0
    } else {
        sorted[sorted.len() - 1]
    }
}

/// In every summary the percentiles and the maximum are in order, and every
/// request is a read, a write or something else.
pub proof fn law_summary_is_ordered(w: WindowStats, events: Seq<DiskEvent>, secs: u64)
    requires
        summarizes(w, events, secs),
    ensures
        w.p50_ns <= w.p99_ns <= w.max_ns,
        w.reads + w.writes + w.others == w.reqs,
        w.errors <= w.reqs,
{
    let s = latencies_of(events);
    lemma_counts(events);
    if s.len() > 0 {
        if w.p99_ns < w.p50_ns {
            assert(s.contains(w.p99_ns));
            assert(100 * at_most(s, w.p99_ns) < 50 * s.len());
        }
        let i = choose|i: int| 0 <= i < s.len() && s[i] == w.p99_ns;
        assert(s[i] <= w.max_ns);
    }
}

/// A window has one summary: what `summarizes` says leaves no choice.
pub proof fn law_summary_is_unique(
    a: WindowStats,
    b: WindowStats,
    events: Seq<DiskEvent>,
    secs: u64,
)
    requires
        summarizes(a, events, secs),
        summarizes(b, events, secs),
    ensures
        a == b,
{
    let s = latencies_of(events);
    if s.len() > 0 {
        let i = choose|i: int| 0 <= i < s.len() && s[i] == a.max_ns;
        let j = choose|j: int| 0 <= j < s.len() && s[j] == b.max_ns;
        assert(s[i] <= b.max_ns);
        assert(s[j] <= a.max_ns);
        assert(s.contains(a.p50_ns) && s.contains(b.p50_ns));
        assert(s.contains(a.p99_ns) && s.contains(b.p99_ns));
    }
}

proof fn lemma_counts(events: Seq<DiskEvent>)
    ensures
        reads_of(events) + writes_of(events) <= events.len(),
        errors_of(events) <= events.len(),
    decreases events.len(),
{
    if events.len() > 0 {
        lemma_counts(events.drop_last());
    }
}

/// Where the first `k` numbers are at most `x`, so are `k` of all.
proof fn lemma_at_most_lower(s: Seq<u64>, x: u64, k: int)
    requires
        0 <= k <= s.len(),
        forall|j: int| 0 <= j < k ==> #[trigger] s[j] <= x,
    ensures
        at_most(s, x) >= k,
    decreases s.len(),
{
    if s.len() > 0 {
        let m = if k == s.len() {
            k - 1
        } else {
            k
        };
        lemma_at_most_lower(s.drop_last(), x, m);
    }
}

/// Where all numbers from place `k` on exceed `x`, at most `k` do not.
proof fn lemma_at_most_upper(s: Seq<u64>, x: u64, k: int)
    requires
        0 <= k <= s.len(),
        forall|j: int| k <= j < s.len() ==> #[trigger] s[j] > x,
    ensures
        at_most(s, x) <= k,
    decreases s.len(),
{
    if s.len() > 0 {
        if k == s.len() {
            lemma_at_most_upper(s.drop_last(), x, k - 1);
        } else {
            assert(s.last() == s[s.len() - 1]);
            lemma_at_most_upper(s.drop_last(), x, k);
        }
    }
}

proof fn lemma_at_most_multiset(s: Seq<u64>, x: u64)
    ensures
        at_most(s, x) == s.to_multiset().filter(|v: u64| v <= x).len(),
    decreases s.len(),
{
    broadcast use vstd::seq_lib::group_to_multiset_ensures;

    let low = |v: u64| v <= x;
    if s.len() == 0 {
        assert(s.to_multiset().filter(low) =~= Multiset::empty());
    } else {
        let front = s.drop_last();
        lemma_at_most_multiset(front, x);
        assert(s =~= front.push(s.last()));
        let m = front.to_multiset();
        if s.last() <= x {
            assert(m.insert(s.last()).filter(low) =~= m.filter(low).insert(s.last()));
        } else {
            assert(m.insert(s.last()).filter(low) =~= m.filter(low));
        }
    }
}

/// Percentiles and maximum do not depend on the order of the numbers.
proof fn lemma_same_percentiles(a: Seq<u64>, b: Seq<u64>)
    requires
        a.to_multiset() == b.to_multiset(),
    ensures
        a.len() == b.len(),
        forall|percent: nat, x: u64|
            #[trigger] is_percentile(b, percent, x) ==> is_percentile(a, percent, x),
        forall|x: u64| #[trigger] is_largest(b, x) ==> is_largest(a, x),
{
    a.to_multiset_ensures();
    b.to_multiset_ensures();
    assert(a.len() == b.len());
    assert forall|x: u64| a.contains(x) == #[trigger] b.contains(x) by {
        assert(a.contains(x) == (a.to_multiset().count(x) > 0));
    }
    assert forall|x: u64| #[trigger] at_most(a, x) == at_most(b, x) by {
        lemma_at_most_multiset(a, x);
        lemma_at_most_multiset(b, x);
    }
    assert forall|percent: nat, x: u64| #[trigger] is_percentile(b, percent, x) implies is_percentile(
        a,
        percent,
        x,
    ) by {
        if a.len() > 0 {
            assert(b.contains(x));
            assert forall|y: u64| #[trigger] a.contains(y) && y < x implies 100 * at_most(a, y)
                < percent * a.len() by {
                assert(b.contains(y));
            }
        }
    }
    assert forall|x: u64| #[trigger] is_largest(b, x) implies is_largest(a, x) by {
        if a.len() > 0 {
            assert forall|i: int| 0 <= i < a.len() implies #[trigger] a[i] <= x by {
                assert(a.contains(a[i]));
                assert(b.contains(a[i]));
            }
        }
    }
}

/// A window without events is all zeros.
pub proof fn law_empty_window_is_all_zeros(w: WindowStats, secs: u64)
    requires
        summarizes(w, seq![], secs),
    ensures
        w.window_secs == secs,
        w.reqs == 0 && w.reads == 0 && w.writes == 0 && w.others == 0,
        w.bytes == 0 && w.errors == 0,
        w.p50_ns == 0 && w.p99_ns == 0 && w.max_ns == 0,
{
    assert(latencies_of(seq![]) =~= seq![]);
}

/// One more event adds one request, in its direction's count, its bytes up to
/// the largest count there is, and one error where it failed. The maximum rises
/// to its latency where that is larger.
pub proof fn law_one_more_event_adds_itself(
    before: WindowStats,
    after: WindowStats,
    events: Seq<DiskEvent>,
    ev: DiskEvent,
    secs: u64,
)
    requires
        summarizes(before, events, secs),
        summarizes(after, events.push(ev), secs),
    ensures
        after.reqs == before.reqs + 1,
        after.reads - before.reads == if ev.rw == 0 {
            1int
        } else {
            0
        },
        after.writes - before.writes == if ev.rw == 1 {
            1int
        } else {
            0
        },
        after.others - before.others == if ev.rw > 1 {
            1int
        } else {
            0
        },
        before.bytes + ev.bytes <= u64::MAX ==> after.bytes == before.bytes + ev.bytes,
        before.bytes + ev.bytes > u64::MAX ==> after.bytes == u64::MAX,
        after.errors - before.errors == if ev.error == 0 {
            0int
        } else {
            1
        },
        ev.latency_ns <= before.max_ns ==> after.max_ns == before.max_ns,
        ev.latency_ns >= before.max_ns ==> after.max_ns == ev.latency_ns,
{
    let all = events.push(ev);
    assert(all.drop_last() =~= events);
    let s = latencies_of(events);
    let t = latencies_of(all);
    assert(t =~= s.push(ev.latency_ns));
    assert(t[s.len() as int] == ev.latency_ns);
    let j = choose|j: int| 0 <= j < t.len() && t[j] == after.max_ns;
    if s.len() > 0 {
        let i = choose|i: int| 0 <= i < s.len() && s[i] == before.max_ns;
        assert(t[i] == before.max_ns);
        if j < s.len() {
            assert(s[j] == after.max_ns);
        }
    }
}

/// A window of one event is that event.
pub proof fn law_single_event_is_its_own_summary(w: WindowStats, ev: DiskEvent, secs: u64)
    requires
        summarizes(w, seq![ev], secs),
    ensures
        w.reqs == 1,
        w.bytes == ev.bytes,
        w.p50_ns == ev.latency_ns,
        w.p99_ns == ev.latency_ns,
        w.max_ns == ev.latency_ns,
{
    let s = latencies_of(seq![ev]);
    assert(s =~= seq![ev.latency_ns]);
    assert(forall|x: u64| s.contains(x) ==> x == ev.latency_ns);
    let none: Seq<DiskEvent> = seq![];
    assert(seq![ev].drop_last() =~= none);
    assert(bytes_of(none) == 0);
}

/// The byte count is never below the size of any of the events.
pub proof fn law_bytes_cover_every_event(
    w: WindowStats,
    events: Seq<DiskEvent>,
    secs: u64,
    i: int,
)
    requires
        summarizes(w, events, secs),
        0 <= i < events.len(),
    ensures
        w.bytes >= events[i].bytes,
{
    lemma_bytes_cover(events, i);
}

proof fn lemma_bytes_cover(events: Seq<DiskEvent>, i: int)
    requires
        0 <= i < events.len(),
    ensures
        bytes_of(events) >= events[i].bytes,
    decreases events.len(),
{
    if i < events.len() - 1 {
        lemma_bytes_cover(events.drop_last(), i);
    }
}

/// The order of the events does not matter: two windows whose events are the
/// other's first half and second half exchanged have the same summary.
pub proof fn law_halves_may_be_exchanged(
    v: WindowStats,
    w: WindowStats,
    a: Seq<DiskEvent>,
    b: Seq<DiskEvent>,
    secs: u64,
)
    requires
        summarizes(v, a + b, secs),
        summarizes(w, b + a, secs),
    ensures
        v == w,
{
    lemma_joined(a, b);
    lemma_joined(b, a);
    let s = latencies_of(a + b);
    let t = latencies_of(b + a);
    assert(s =~= latencies_of(a) + latencies_of(b));
    assert(t =~= latencies_of(b) + latencies_of(a));
    vstd::seq_lib::lemma_multiset_commutative(latencies_of(a), latencies_of(b));
    vstd::seq_lib::lemma_multiset_commutative(latencies_of(b), latencies_of(a));
    assert(s.to_multiset() =~= t.to_multiset());
    lemma_same_percentiles(s, t);
    assert(summarizes(w, a + b, secs));
    law_summary_is_unique(v, w, a + b, secs);
}

proof fn lemma_joined(a: Seq<DiskEvent>, b: Seq<DiskEvent>)
    ensures
        bytes_of(a + b) == bytes_of(a) + bytes_of(b),
        reads_of(a + b) == reads_of(a) + reads_of(b),
        writes_of(a + b) == writes_of(a) + writes_of(b),
        errors_of(a + b) == errors_of(a) + errors_of(b),
    decreases b.len(),
{
    if b.len() == 0 {
        assert(a + b =~= a);
    } else {
        lemma_joined(a, b.drop_last());
        assert((a + b).drop_last() =~= a + b.drop_last());
    }
}

/// Whether a latency is where `percent` in a hundred of the events end: an event
/// has it, at least so many events do not exceed it, and fewer are below it.
pub open spec fn ends_share(events: Seq<DiskEvent>, percent: nat, x: u64) -> bool {
    &&& exists|i: int| 0 <= i < events.len() && #[trigger] events[i].latency_ns == x
    &&& 100 * events.filter(|ev: DiskEvent| ev.latency_ns <= x).len() >= percent * events.len()
    &&& 100 * events.filter(|ev: DiskEvent| ev.latency_ns < x).len() < percent * events.len()
}

/// Half of a window's events are no slower than its p50, and less than half are
/// faster; for the p99 it is ninety-nine in a hundred. No event is slower than
/// the maximum, and one is as slow.
pub proof fn law_percentiles_part_the_events(w: WindowStats, events: Seq<DiskEvent>, secs: u64)
    requires
        summarizes(w, events, secs),
        events.len() > 0,
    ensures
        ends_share(events, 50, w.p50_ns),
        ends_share(events, 99, w.p99_ns),
        forall|i: int| 0 <= i < events.len() ==> #[trigger] events[i].latency_ns <= w.max_ns,
        exists|i: int| 0 <= i < events.len() && #[trigger] events[i].latency_ns == w.max_ns,
{
    let s = latencies_of(events);
    lemma_share(events, 50, w.p50_ns);
    lemma_share(events, 99, w.p99_ns);
    let k = choose|k: int| 0 <= k < s.len() && s[k] == w.max_ns;
    assert(events[k].latency_ns == w.max_ns);
    assert forall|i: int| 0 <= i < events.len() implies #[trigger] events[i].latency_ns
        <= w.max_ns by {
        assert(s[i] <= w.max_ns);
    }
}

proof fn lemma_share(events: Seq<DiskEvent>, percent: nat, x: u64)
    requires
        events.len() > 0,
        percent > 0,
        is_percentile(latencies_of(events), percent, x),
    ensures
        ends_share(events, percent, x),
{
    let s = latencies_of(events);
    let upto = |ev: DiskEvent| ev.latency_ns <= x;
    let below = |ev: DiskEvent| ev.latency_ns < x;
    law_count_is_what_a_filter_leaves(events, upto);
    law_count_is_what_a_filter_leaves(events, below);
    lemma_count_same(s, |v: u64| v <= x, events, upto);
    let k = choose|k: int| 0 <= k < s.len() && s[k] == x;
    assert(events[k].latency_ns == x);
    if exists|i: int| 0 <= i < s.len() && #[trigger] s[i] < x {
        let y = lemma_next_below(s, x);
        lemma_count_same(s, |v: u64| v < x, events, below);
        lemma_count_at_most(s, |v: u64| v < x, |v: u64| v <= y);
        assert(100 * at_most(s, y) < percent * s.len());
    } else {
        assert forall|i: int| 0 <= i < events.len() implies !below(#[trigger] events[i]) by {
            assert(s[i] == events[i].latency_ns);
        }
        lemma_count_none(events, below);
        assert(percent * s.len() > 0) by (nonlinear_arith)
            requires
                percent > 0,
                s.len() > 0,
        ;
    }
}

/// The largest of the numbers below `x`.
proof fn lemma_next_below(s: Seq<u64>, x: u64) -> (y: u64)
    requires
        exists|i: int| 0 <= i < s.len() && #[trigger] s[i] < x,
    ensures
        s.contains(y),
        y < x,
        forall|i: int| 0 <= i < s.len() && #[trigger] s[i] < x ==> s[i] <= y,
    decreases s.len(),
{
    let front = s.drop_last();
    let z = s.last();
    assert(z == s[s.len() - 1]);
    assert(forall|i: int| 0 <= i < front.len() ==> #[trigger] front[i] == s[i]);
    if exists|i: int| 0 <= i < front.len() && #[trigger] front[i] < x {
        let y = lemma_next_below(front, x);
        let k = choose|k: int| 0 <= k < front.len() && front[k] == y;
        assert(s[k] == y);
        assert forall|i: int| 0 <= i < front.len() && #[trigger] s[i] < x implies s[i] <= y by {
            assert(front[i] < x);
        }
        if y < z && z < x {
            z
        } else {
            y
        }
    } else {
        assert forall|i: int| 0 <= i < s.len() && #[trigger] s[i] < x implies i == s.len()
            - 1 by {
            if i < front.len() {
                assert(front[i] < x);
            }
        }
        z
    }
}

} // verus!
