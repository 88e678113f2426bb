//! The drift rule: disk trouble that costs votes.
//!
//! Two conditions must hold together. The disk's p99 is above four times its own
//! baseline and above a floor, for three windows in a row; and the vote lag is
//! above its own norm. Then one alert fires, and the rule is armed again only
//! after the disk has returned to normal. Cause without a victim is not drift.

use vstd::prelude::*;
use crate::count::{
    count_where, law_count_is_what_a_filter_leaves, lemma_count_at_most, lemma_count_none,
    lemma_count_same,
};
use crate::text::{
    decimal, ends_with, lemma_back, lemma_front, push_decimal, push_signed, signed_decimal,
    starts_with,
};
use crate::units::{latency_text, push_latency};

verus! {

/// A window is hot above this multiple of the baseline.
pub const HOT_FACTOR: u64 = 4;

/// No window is hot at or below this p99.
pub const FLOOR_NS: u64 = 1_000_000;

/// So many hot windows in a row are a streak.
pub const STREAK: u64 = 3;

/// A lag so many slots above the norm is a victim.
pub const LAG_MARGIN: i64 = 3;

/// So many normal windows are recent.
pub const MEMORY: usize = 20;

/// How many of the numbers are at most `x`.
pub open spec fn at_most(s: Seq<i128>, x: i128) -> nat {
    count_where(s, |v: i128| v <= x)
}

/// Whether `m` is the median: the smallest of the numbers that at least half of
/// them do not exceed.
pub open spec fn is_median(s: Seq<i128>, m: i128) -> bool {
    &&& s.contains(m)
    &&& 2 * at_most(s, m) >= s.len()
    &&& forall|y: i128| #[trigger] s.contains(y) && y < m ==> 2 * at_most(s, y) < s.len()
}

/// The median, where there are numbers.
pub open spec fn median_of(s: Seq<i128>) -> Option<i128> {
    if s.len() == 0 {
        None
    } else {
        Some(choose|m: i128| is_median(s, m))
    }
}

/// The vote lag at the time of a window.
#[derive(Debug, Clone, Copy, PartialEq, Eq, Structural)]
pub enum Lag {
    /// No sample yet.
    Unknown,
    Slots(i64),
    /// The RPC is dead: the worst case.
    Dead,
}

/// What the rule remembers.
pub struct DriftState {
    /// The p99 of recent normal windows, oldest first.
    pub normal: Seq<i128>,
    /// The vote lags of recent normal windows, oldest first.
    pub lags: Seq<i128>,
    /// Hot windows in a row.
    pub streak: nat,
    /// Whether an alert may fire.
    pub armed: bool,
    /// How many windows are recent.
    pub memory: nat,
}

/// An alert's figures.
#[derive(Debug, Clone, Copy, PartialEq, Eq)]
pub struct Alert {
    pub p99_ns: u64,
    pub baseline_ns: u64,
    pub windows: u64,
    pub lag: Lag,
    pub norm: Option<i64>,
}

impl DriftState {
    /// The disk's baseline: the median over recent normal windows.
    pub open spec fn baseline(self) -> Option<i128> {
        median_of(self.normal)
    }

    /// The vote lag's norm: the median over recent normal windows.
    pub open spec fn norm(self) -> Option<i128> {
        median_of(self.lags)
    }

    /// Whether a p99 is hot.
    pub open spec fn hot(self, p99_ns: u64) -> bool {
        match self.baseline() {
            Some(b) => p99_ns > HOT_FACTOR * b && p99_ns > FLOOR_NS,
            None => false,
        }
    }

    /// Whether a vote lag is a victim.
    pub open spec fn suffers(self, lag: Lag) -> bool {
        match lag {
            Lag::Unknown => false,
            Lag::Slots(l) => match self.norm() {
                Some(n) => l - n >= LAG_MARGIN,
                None => false,
            },
            Lag::Dead => true,
        }
    }

    /// The streak with this window.
    pub open spec fn streak_with(self, p99_ns: u64) -> nat {
        if !self.hot(p99_ns) {
            0
        } else if self.streak < u64::MAX {
            self.streak + 1
        } else {
            self.streak
        }
    }

    /// Whether a window fires the alert.
    pub open spec fn fires(self, p99_ns: u64, lag: Lag) -> bool {
        &&& self.armed
        &&& self.hot(p99_ns)
        &&& self.streak_with(p99_ns) >= STREAK
        &&& self.suffers(lag)
    }

    /// The state after a window. Only normal windows are remembered, a window
    /// without a request has no p99 to remember, and a hot window changes
    /// neither the baseline nor the norm.
    pub open spec fn after(self, p99_ns: u64, lag: Lag) -> DriftState {
        if self.hot(p99_ns) {
            DriftState {
                streak: self.streak_with(p99_ns),
                armed: self.armed && !self.fires(p99_ns, lag),
                ..self
            }
        } else {
            DriftState {
                normal: if p99_ns > 0 {
                    remembered(self.normal, p99_ns as i128, self.memory)
                } else {
                    self.normal
                },
                lags: match lag {
                    Lag::Slots(l) => remembered(self.lags, l as i128, self.memory),
                    _ => self.lags,
                },
                streak: 0,
                armed: true,
                memory: self.memory,
            }
        }
    }
}

/// The state before any window.
pub open spec fn unused(memory: nat) -> DriftState {
    DriftState { normal: Seq::empty(), lags: Seq::empty(), streak: 0, armed: true, memory }
}

/// The figures of the alert that a window fires.
pub open spec fn alert_of(state: DriftState, p99_ns: u64, lag: Lag) -> Alert {
    Alert {
        p99_ns,
        baseline_ns: state.baseline()->0 as u64,
        windows: state.streak_with(p99_ns) as u64,
        lag,
        norm: match state.norm() {
            Some(n) => Some(n as i64),
            None => None,
        },
    }
}

/// The most recent values with one more, the oldest dropped where there are too
/// many.
pub open spec fn remembered(s: Seq<i128>, x: i128, memory: nat) -> Seq<i128> {
    if s.len() < memory {
        s.push(x)
    } else {
        s.push(x).drop_first()
    }
}

/// The vote lag in an alert.
pub open spec fn lag_text(lag: Lag) -> Seq<char> {
    match lag {
        Lag::Unknown => "unknown"@,
        Lag::Slots(l) => signed_decimal(l as int),
        Lag::Dead => "DOWN"@,
    }
}

/// The norm in an alert.
pub open spec fn norm_text(norm: Option<i64>) -> Seq<char> {
    match norm {
        Some(n) => signed_decimal(n as int),
        None => "unknown"@,
    }
}

/// An alert as text.
pub open spec fn alert_text(a: Alert) -> Seq<char> {
    "!! DRIFT: disk p99 "@ + latency_text(a.p99_ns as nat) + " = "@ + decimal(
        a.p99_ns as nat / a.baseline_ns as nat,
    ) + "x baseline "@ + latency_text(a.baseline_ns as nat) + " for "@ + decimal(a.windows as nat)
        + " windows, vote lag "@ + lag_text(a.lag) + " vs norm "@ + norm_text(a.norm)
        + ". disk is the lead signal"@
}

fn count_at_most(s: &Vec<i128>, x: i128) -> (r: usize)
    ensures
        r == at_most(s@, x),
        r <= s.len(),
{
    let mut n: usize = 0;
    let mut i: usize = 0;
    assert(s@.take(0) =~= seq![]);
    while i < s.len()
        invariant
            i <= s.len(),
            n == at_most(s@.take(i as int), x),
            n <= i,
        decreases s.len() - i,
    {
        assert(s@.take(i + 1).drop_last() =~= s@.take(i as int));
        if s[i] <= x {
            n += 1;
        }
        i += 1;
    }
    assert(s@.take(i as int) =~= s@);
    n
}

/// The median, where there are numbers.
fn median(s: &Vec<i128>) -> (r: Option<i128>)
    ensures
        r == median_of(s@),
        r is Some ==> s@.contains(r->0),
{
    if s.len() == 0 {
        return None;
    }
    let half: usize = s.len() - s.len() / 2;
    let mut best: Option<i128> = None;
    let mut i: usize = 0;
    while i < s.len()
        invariant
            i <= s.len(),
            half == s.len() - s.len() / 2,
            best is Some ==> s@.contains(best->0) && 2 * at_most(s@, best->0) >= s.len(),
            forall|k: int|
                0 <= k < i && 2 * at_most(s@, #[trigger] s@[k]) >= s.len() ==> best is Some && best->0
                    <= s@[k],
        decreases s.len() - i,
    {
        let x: i128 = s[i];
        if count_at_most(s, x) >= half {
            best = match best {
                Some(b) => if b <= x {
                    Some(b)
                } else {
                    Some(x)
                },
                None => Some(x),
            };
        }
        i += 1;
    }
    proof {
        let top = lemma_largest(s@);
        let k = choose|k: int| 0 <= k < s@.len() && s@[k] == top;
        assert(2 * at_most(s@, s@[k]) >= s.len());
        let m = best->0;
        assert(is_median(s@, m));
        lemma_median_unique(s@, m);
    }
    best
}

/// Some number is the largest, and none exceeds it.
proof fn lemma_largest(s: Seq<i128>) -> (top: i128)
    requires
        s.len() > 0,
    ensures
        s.contains(top),
        forall|i: int| 0 <= i < s.len() ==> #[trigger] s[i] <= top,
        at_most(s, top) == s.len(),
    decreases s.len(),
{
    let front = s.drop_last();
    if front.len() == 0 {
        assert(s[0] == s.last());
        assert(at_most(front, s.last()) == 0);
        s.last()
    } else {
        let t = lemma_largest(front);
        let top = if s.last() > t {
            s.last()
        } else {
            t
        };
        assert(s.contains(top)) by {
            if s.last() <= t {
                let k = choose|k: int| 0 <= k < front.len() && front[k] == t;
                assert(s[k] == t);
            } else {
                assert(s[s.len() - 1] == top);
            }
        }
        assert forall|i: int| 0 <= i < s.len() implies #[trigger] s[i] <= top by {
            if i < front.len() {
                assert(front[i] <= t);
            }
        }
        lemma_at_most_all(s, top);
        top
    }
}

proof fn lemma_at_most_all(s: Seq<i128>, x: i128)
    requires
        forall|i: int| 0 <= i < s.len() ==> #[trigger] s[i] <= x,
    ensures
        at_most(s, x) == s.len(),
    decreases s.len(),
{
    if s.len() > 0 {
        lemma_at_most_all(s.drop_last(), x);
    }
}

proof fn lemma_median_unique(s: Seq<i128>, m: i128)
    requires
        is_median(s, m),
    ensures
        median_of(s) == Some(m),
{
    let c = choose|c: i128| is_median(s, c);
    assert(is_median(s, c));
    assert(s.contains(c) && s.contains(m));
}

/// Numbers have a median, and `median_of` is the only one: so the baseline is
/// the median p99 of recent normal windows, and the norm their median lag.
pub proof fn law_median_is_a_median(s: Seq<i128>)
    requires
        s.len() > 0,
    ensures
        is_median(s, median_of(s)->0),
        forall|m: i128| #[trigger] is_median(s, m) ==> median_of(s) == Some(m),
{
    let top = lemma_largest(s);
    let m = lemma_least_enough(s, top, s.len() as int);
    assert(is_median(s, m)) by {
        assert forall|y: i128| #[trigger] s.contains(y) && y < m implies 2 * at_most(s, y)
            < s.len() by {
            let k = choose|k: int| 0 <= k < s.len() && s[k] == y;
            assert(2 * at_most(s, s[k]) >= s.len() ==> m <= s[k]);
        }
    }
    lemma_median_unique(s, m);
    assert forall|n: i128| #[trigger] is_median(s, n) implies median_of(s) == Some(n) by {
        lemma_median_unique(s, n);
    }
}

/// The least of the first `k` numbers, and of `top`, that at least half of all
/// numbers do not exceed.
proof fn lemma_least_enough(s: Seq<i128>, top: i128, k: int) -> (m: i128)
    requires
        0 <= k <= s.len(),
        s.contains(top),
        2 * at_most(s, top) >= s.len(),
    ensures
        s.contains(m),
        2 * at_most(s, m) >= s.len(),
        forall|i: int|
            0 <= i < k && 2 * at_most(s, #[trigger] s[i]) >= s.len() ==> m <= s[i],
    decreases k,
{
    if k == 0 {
        top
    } else {
        let m = lemma_least_enough(s, top, k - 1);
        let x = s[k - 1];
        if 2 * at_most(s, x) >= s.len() && x < m {
            x
        } else {
            m
        }
    }
}

/// The drift rule with what it remembers.
pub struct DriftRule {
    normal: Vec<i128>,
    lags: Vec<i128>,
    streak: u64,
    armed: bool,
    memory: usize,
}

impl View for DriftRule {
    type V = DriftState;

    closed spec fn view(&self) -> DriftState {
        DriftState {
            normal: self.normal@,
            lags: self.lags@,
            streak: self.streak as nat,
            armed: self.armed,
            memory: self.memory as nat,
        }
    }
}

/// Appends a value to the recent ones.
fn remember(s: &mut Vec<i128>, x: i128, memory: usize)
    ensures
        final(s)@ == remembered(old(s)@, x, memory as nat),
{
    let full: bool = s.len() >= memory;
    s.push(x);
    if full {
        s.remove(0);
    }
    assert(s@ =~= remembered(old(s)@, x, memory as nat));
}

impl DriftRule {
    /// What is remembered is a latency above zero, or a vote lag, and no more
    /// than the memory holds.
    pub closed spec fn wf(self) -> bool {
        &&& forall|i: int| 0 <= i < self.normal@.len() ==> 0 < #[trigger] self.normal@[i] <= u64::MAX
        &&& forall|i: int|
            0 <= i < self.lags@.len() ==> i64::MIN <= #[trigger] self.lags@[i] <= i64::MAX
        &&& self.normal@.len() <= self.memory
        &&& self.lags@.len() <= self.memory
    }

    /// A rule that has seen no window and takes the last `memory` normal ones
    /// for its baseline and norm.
    pub fn new(memory: usize) -> (r: DriftRule)
        ensures
            r.wf(),
            r@ == unused(memory as nat),
    {
        let r = DriftRule { normal: Vec::new(), lags: Vec::new(), streak: 0, armed: true, memory };
        assert(r.normal@ =~= Seq::empty());
        assert(r.lags@ =~= Seq::empty());
        r
    }

    /// Takes one window's p99 and the vote lag at that time. The alert, where
    /// the window fires it.
    pub fn observe(&mut self, p99_ns: u64, lag: Lag) -> (r: Option<Alert>)
        requires
            old(self).wf(),
        ensures
            final(self).wf(),
            final(self)@ == old(self)@.after(p99_ns, lag),
            r == if old(self)@.fires(p99_ns, lag) {
                Some(alert_of(old(self)@, p99_ns, lag))
            } else {
                None
            },
            r is Some ==> r->0.baseline_ns > 0,
    {
        let baseline: Option<i128> = median(&self.normal);
        let norm: Option<i128> = median(&self.lags);
        proof {
            if baseline is Some {
                let i = choose|i: int| 0 <= i < self.normal@.len() && self.normal@[i] == baseline->0;
                assert(0 < self.normal@[i] <= u64::MAX);
            }
            if norm is Some {
                let i = choose|i: int| 0 <= i < self.lags@.len() && self.lags@[i] == norm->0;
                assert(i64::MIN <= self.lags@[i] <= i64::MAX);
            }
        }
        let hot: bool = match baseline {
            Some(b) => p99_ns as i128 > HOT_FACTOR as i128 * b && p99_ns > FLOOR_NS,
            None => false,
        };
        if !hot {
            if p99_ns > 0 {
                remember(&mut self.normal, p99_ns as i128, self.memory);
            }
            match lag {
                Lag::Slots(l) => remember(&mut self.lags, l as i128, self.memory),
                _ => {},
            }
            self.streak = 0;
            self.armed = true;
            return None;
        }
        self.streak = self.streak.saturating_add(1);
        let suffers: bool = match lag {
            Lag::Unknown => false,
            Lag::Slots(l) => match norm {
                Some(n) => l as i128 - n >= LAG_MARGIN as i128,
                None => false,
            },
            Lag::Dead => true,
        };
        if !self.armed || self.streak < STREAK || !suffers {
            return None;
        }
        self.armed = false;
        let baseline_ns: u64 = match baseline {
            Some(b) => b as u64,
            None => 1,
        };
        let norm: Option<i64> = match norm {
            Some(n) => Some(n as i64),
            None => None,
        };
        Some(Alert { p99_ns, baseline_ns, windows: self.streak, lag, norm })
    }
}

impl Alert {
    /// The alert as a line, e.g. `!! DRIFT: disk p99 40.6ms = 190x baseline
    /// 213µs for 3 windows, vote lag 9 vs norm 1. disk is the lead signal`.
    pub fn line(&self) -> (r: String)
        requires
            self.baseline_ns > 0,
        ensures
            r@ == alert_text(*self),
    {
        let mut out = String::from_str("!! DRIFT: disk p99 ");
        push_latency(&mut out, self.p99_ns);
        out.append(" = ");
        push_decimal(&mut out, self.p99_ns / self.baseline_ns);
        out.append("x baseline ");
        push_latency(&mut out, self.baseline_ns);
        out.append(" for ");
        push_decimal(&mut out, self.windows);
        out.append(" windows, vote lag ");
        match self.lag {
            Lag::Unknown => out.append("unknown"),
            Lag::Slots(l) => push_signed(&mut out, l),
            Lag::Dead => out.append("DOWN"),
        }
        out.append(" vs norm ");
        match self.norm {
            Some(n) => push_signed(&mut out, n),
            None => out.append("unknown"),
        }
        out.append(". disk is the lead signal");
        out
    }
}

/// One window as the rule sees it.
pub struct Seen {
    pub p99_ns: u64,
    pub lag: Lag,
}

/// The state after a run of windows.
pub open spec fn state_after(start: DriftState, run: Seq<Seen>) -> DriftState
    decreases run.len(),
{
    if run.len() == 0 {
        start
    } else {
        state_after(start, run.drop_last()).after(run.last().p99_ns, run.last().lag)
    }
}

/// Whether window `k` of a run is hot.
pub open spec fn hot_at(start: DriftState, run: Seq<Seen>, k: int) -> bool {
    state_after(start, run.take(k)).hot(run[k].p99_ns)
}

/// Whether the vote lag suffers at window `k` of a run.
pub open spec fn suffers_at(start: DriftState, run: Seq<Seen>, k: int) -> bool {
    state_after(start, run.take(k)).suffers(run[k].lag)
}

/// Whether window `k` of a run fires the alert.
pub open spec fn fires_at(start: DriftState, run: Seq<Seen>, k: int) -> bool {
    state_after(start, run.take(k)).fires(run[k].p99_ns, run[k].lag)
}

/// Between two alerts the disk has returned to normal.
pub proof fn law_one_alert_per_episode(start: DriftState, run: Seq<Seen>, i: int, j: int)
    requires
        0 <= i < j < run.len(),
        fires_at(start, run, i),
        fires_at(start, run, j),
    ensures
        exists|k: int| i < k < j && !#[trigger] hot_at(start, run, k),
{
    if forall|k: int| i < k < j ==> #[trigger] hot_at(start, run, k) {
        lemma_stays_disarmed(start, run, i, j);
    }
}

/// Cause without a victim is not drift: without a suffering vote lag no window
/// fires, however hot the disk.
pub proof fn law_no_alert_without_victim(start: DriftState, run: Seq<Seen>)
    requires
        forall|k: int| 0 <= k < run.len() ==> !#[trigger] suffers_at(start, run, k),
    ensures
        forall|k: int| 0 <= k < run.len() ==> !#[trigger] fires_at(start, run, k),
{
    assert forall|k: int| 0 <= k < run.len() implies !#[trigger] fires_at(start, run, k) by {
        assert(!suffers_at(start, run, k));
    }
}

/// An alert needs three hot windows in a row, the last of them with a suffering
/// vote lag: a lone spike is silent.
pub proof fn law_alert_needs_three_hot_windows(start: DriftState, run: Seq<Seen>, k: int)
    requires
        start.streak == 0,
        0 <= k < run.len(),
        fires_at(start, run, k),
    ensures
        k >= 2,
        hot_at(start, run, k - 2),
        hot_at(start, run, k - 1),
        hot_at(start, run, k),
        suffers_at(start, run, k),
{
    lemma_take_step(start, run, k - 1);
    lemma_take_step(start, run, k - 2);
}

/// Three hot windows in a row with a suffering vote lag fire the alert, unless
/// one has fired since the disk was last normal.
pub proof fn law_alert_is_owed(start: DriftState, run: Seq<Seen>, k: int)
    requires
        2 <= k < run.len(),
        hot_at(start, run, k - 2),
        hot_at(start, run, k - 1),
        hot_at(start, run, k),
        suffers_at(start, run, k),
        state_after(start, run.take(k)).armed,
    ensures
        fires_at(start, run, k),
{
    lemma_take_step(start, run, k - 1);
    lemma_take_step(start, run, k - 2);
}

/// The rule is armed after every normal window, and disarmed by an alert until
/// the next normal one.
pub proof fn law_rearms_only_after_normal(start: DriftState, run: Seq<Seen>, k: int)
    requires
        0 <= k < run.len(),
    ensures
        !hot_at(start, run, k) ==> state_after(start, run.take(k + 1)).armed,
        hot_at(start, run, k) && !state_after(start, run.take(k)).armed ==> !state_after(
            start,
            run.take(k + 1),
        ).armed,
        fires_at(start, run, k) ==> !state_after(start, run.take(k + 1)).armed,
{
    lemma_take_step(start, run, k);
}

/// Trouble does not become the new normal: a hot window leaves the baseline and
/// the norm as they were.
pub proof fn law_hot_windows_keep_baseline(start: DriftState, run: Seq<Seen>, k: int)
    requires
        0 <= k < run.len(),
        hot_at(start, run, k),
    ensures
        state_after(start, run.take(k + 1)).baseline() == state_after(start, run.take(k)).baseline(),
        state_after(start, run.take(k + 1)).norm() == state_after(start, run.take(k)).norm(),
{
    lemma_take_step(start, run, k);
}

/// Nothing at or below the floor is hot.
pub proof fn law_floor_is_never_hot(state: DriftState, p99_ns: u64)
    requires
        p99_ns <= FLOOR_NS,
    ensures
        !state.hot(p99_ns),
{
}

proof fn lemma_take_step(start: DriftState, run: Seq<Seen>, k: int)
    requires
        k < run.len(),
    ensures
        0 <= k ==> state_after(start, run.take(k + 1)) == state_after(start, run.take(k)).after(
            run[k].p99_ns,
            run[k].lag,
        ),
        state_after(start, run.take(0)) == start,
{
    assert(run.take(0) =~= seq![]);
    if 0 <= k {
        assert(run.take(k + 1).drop_last() =~= run.take(k));
    }
}

proof fn lemma_stays_disarmed(start: DriftState, run: Seq<Seen>, i: int, j: int)
    requires
        0 <= i < j < run.len(),
        fires_at(start, run, i),
        forall|k: int| i < k < j ==> #[trigger] hot_at(start, run, k),
    ensures
        !state_after(start, run.take(j)).armed,
    decreases j - i,
{
    lemma_take_step(start, run, j - 1);
    if j - 1 > i {
        lemma_stays_disarmed(start, run, i, j - 1);
        assert(hot_at(start, run, j - 1));
    }
}

/// Whether a number parts a list in half: it is in the list, at least half of the
/// list does not exceed it, and less than half is below it.
pub open spec fn parts_in_half(s: Seq<i128>, m: i128) -> bool {
    &&& s.contains(m)
    &&& 2 * s.filter(|v: i128| v <= m).len() >= s.len()
    &&& 2 * s.filter(|v: i128| v < m).len() < s.len()
}

/// The median parts the list in half, and no other number does.
pub proof fn law_median_parts_in_half(s: Seq<i128>)
    requires
        s.len() > 0,
    ensures
        median_of(s) is Some,
        parts_in_half(s, median_of(s)->0),
        forall|m: i128| #[trigger] parts_in_half(s, m) ==> median_of(s) == Some(m),
{
    law_median_is_a_median(s);
    let m = median_of(s)->0;
    lemma_median_halves(s, m);
    assert forall|n: i128| #[trigger] parts_in_half(s, n) implies median_of(s) == Some(n) by {
        lemma_halves_median(s, n);
    }
}

proof fn lemma_median_halves(s: Seq<i128>, m: i128)
    requires
        s.len() > 0,
        is_median(s, m),
    ensures
        parts_in_half(s, m),
{
    let upto = |v: i128| v <= m;
    let below = |v: i128| v < m;
    law_count_is_what_a_filter_leaves(s, upto);
    law_count_is_what_a_filter_leaves(s, below);
    lemma_count_same(s, upto, s, |v: i128| v <= m);
    if exists|i: int| 0 <= i < s.len() && #[trigger] s[i] < m {
        let y = lemma_next_below(s, m);
        lemma_count_at_most(s, below, |v: i128| v <= y);
        assert(2 * at_most(s, y) < s.len());
    } else {
        lemma_count_none(s, below);
    }
}

proof fn lemma_halves_median(s: Seq<i128>, m: i128)
    requires
        parts_in_half(s, m),
    ensures
        median_of(s) == Some(m),
{
    let upto = |v: i128| v <= m;
    let below = |v: i128| v < m;
    law_count_is_what_a_filter_leaves(s, upto);
    law_count_is_what_a_filter_leaves(s, below);
    lemma_count_same(s, upto, s, |v: i128| v <= m);
    assert forall|y: i128| #[trigger] s.contains(y) && y < m implies 2 * at_most(s, y)
        < s.len() by {
        lemma_count_at_most(s, |v: i128| v <= y, below);
    }
    assert(is_median(s, m));
    lemma_median_unique(s, m);
}

/// The largest of the numbers below `m`.
proof fn lemma_next_below(s: Seq<i128>, m: i128) -> (y: i128)
    requires
        exists|i: int| 0 <= i < s.len() && #[trigger] s[i] < m,
    ensures
        s.contains(y),
        y < m,
        forall|i: int| 0 <= i < s.len() && #[trigger] s[i] < m ==> s[i] <= y,
    decreases s.len(),
{
    let front = s.drop_last();
    let x = s.last();
    assert(x == s[s.len() - 1]);
    assert(forall|i: int| 0 <= i < front.len() ==> #[trigger] front[i] == s[i]);
    if exists|i: int| 0 <= i < front.len() && #[trigger] front[i] < m {
        let y = lemma_next_below(front, m);
        let k = choose|k: int| 0 <= k < front.len() && front[k] == y;
        assert(s[k] == y);
        assert forall|i: int| 0 <= i < front.len() && #[trigger] s[i] < m implies s[i] <= y by {
            assert(front[i] < m);
        }
        if y < x && x < m {
            x
        } else {
            y
        }
    } else {
        assert forall|i: int| 0 <= i < s.len() && #[trigger] s[i] < m implies i == s.len()
            - 1 by {
            if i < front.len() {
                assert(front[i] < m);
            }
        }
        x
    }
}

/// A vote lag is a victim if and only if it is at least three slots above the
/// median of the remembered lags. A lag at its norm, or below it, fires nothing.
pub proof fn law_victim_is_three_slots_above_norm(state: DriftState, n: i128, l: i64)
    requires
        parts_in_half(state.lags, n),
    ensures
        state.suffers(Lag::Slots(l)) <==> l - n >= 3,
        l <= n ==> forall|p99_ns: u64| !#[trigger] state.fires(p99_ns, Lag::Slots(l)),
{
    assert(state.lags.len() > 0);
    law_median_parts_in_half(state.lags);
}

/// A dead RPC is always a victim. A lag that is not known never is, nor one
/// without a norm to hold it against.
pub proof fn law_dead_is_a_victim_and_unknown_is_not(state: DriftState, l: i64)
    ensures
        state.suffers(Lag::Dead),
        !state.suffers(Lag::Unknown),
        state.lags.len() == 0 ==> !state.suffers(Lag::Slots(l)),
{
}

/// Only the distance from the norm counts: with all remembered lags and the
/// current one moved by the same number of slots, the same windows fire.
pub proof fn law_moved_lags_fire_alike(
    state: DriftState,
    moved: DriftState,
    p99_ns: u64,
    l: i64,
    moved_l: i64,
    slots: int,
)
    requires
        moved_l == l + slots,
        moved.lags.len() == state.lags.len(),
        forall|i: int| 0 <= i < state.lags.len() ==> #[trigger] moved.lags[i] == state.lags[i] + slots,
        moved.normal == state.normal,
        moved.streak == state.streak,
        moved.armed == state.armed,
    ensures
        moved.suffers(Lag::Slots(moved_l)) == state.suffers(Lag::Slots(l)),
        moved.fires(p99_ns, Lag::Slots(moved_l)) == state.fires(p99_ns, Lag::Slots(l)),
{
    if state.lags.len() > 0 {
        let s = state.lags;
        let t = moved.lags;
        law_median_parts_in_half(s);
        let m = median_of(s)->0;
        let k = choose|k: int| 0 <= k < s.len() && s[k] == m;
        let n = t[k];
        assert(n == m + slots);
        assert(parts_in_half(t, n)) by {
            law_count_is_what_a_filter_leaves(s, |v: i128| v <= m);
            law_count_is_what_a_filter_leaves(s, |v: i128| v < m);
            law_count_is_what_a_filter_leaves(t, |v: i128| v <= n);
            law_count_is_what_a_filter_leaves(t, |v: i128| v < n);
            lemma_count_same(t, |v: i128| v <= n, s, |v: i128| v <= m);
            lemma_count_same(t, |v: i128| v < n, s, |v: i128| v < m);
        }
        law_victim_is_three_slots_above_norm(state, m, l);
        law_victim_is_three_slots_above_norm(moved, n, moved_l);
    }
}

/// A window is hot if and only if its p99 is above four times the median of the
/// remembered ones and above one millisecond. Before any is remembered none is
/// hot.
pub proof fn law_hot_is_above_four_times_baseline(state: DriftState, b: i128, p99_ns: u64)
    ensures
        parts_in_half(state.normal, b) ==> (state.hot(p99_ns) <==> p99_ns > 4 * b && p99_ns
            > 1_000_000),
        state.normal.len() == 0 ==> !state.hot(p99_ns),
{
    if parts_in_half(state.normal, b) {
        assert(state.normal.len() > 0);
        law_median_parts_in_half(state.normal);
    }
}

/// The whole rule: a window fires if and only if it ends three hot windows in a
/// row, the vote lag suffers, and since every earlier alert the disk has been
/// normal.
pub proof fn law_fires_exactly_when_owed(memory: nat, run: Seq<Seen>, k: int)
    requires
        0 <= k < run.len(),
    ensures
        fires_at(unused(memory), run, k) <==> {
            &&& k >= 2
            &&& hot_at(unused(memory), run, k - 2)
            &&& hot_at(unused(memory), run, k - 1)
            &&& hot_at(unused(memory), run, k)
            &&& suffers_at(unused(memory), run, k)
            &&& forall|i: int|
                0 <= i < k && #[trigger] fires_at(unused(memory), run, i) ==> exists|j: int|
                    i < j < k && !#[trigger] hot_at(unused(memory), run, j)
        },
{
    let start = unused(memory);
    if fires_at(start, run, k) {
        law_alert_needs_three_hot_windows(start, run, k);
        assert forall|i: int| 0 <= i < k && #[trigger] fires_at(start, run, i) implies exists|
            j: int,
        | i < j < k && !#[trigger] hot_at(start, run, j) by {
            law_one_alert_per_episode(start, run, i, k);
        }
    } else if k >= 2 && hot_at(start, run, k - 2) && hot_at(start, run, k - 1) && hot_at(
        start,
        run,
        k,
    ) && suffers_at(start, run, k) {
        if state_after(start, run.take(k)).armed {
            law_alert_is_owed(start, run, k);
        } else {
            let i = lemma_disarmed_by(start, run, k);
            assert(fires_at(start, run, i));
        }
    }
}

/// A rule that was armed and is not has fired, and every window since was hot.
proof fn lemma_disarmed_by(start: DriftState, run: Seq<Seen>, k: int) -> (i: int)
    requires
        0 <= k <= run.len(),
        start.armed,
        !state_after(start, run.take(k)).armed,
    ensures
        0 <= i < k,
        fires_at(start, run, i),
        forall|j: int| i < j < k ==> #[trigger] hot_at(start, run, j),
    decreases k,
{
    assert(run.take(0) =~= seq![]);
    lemma_take_step(start, run, k - 1);
    if fires_at(start, run, k - 1) {
        k - 1
    } else {
        lemma_disarmed_by(start, run, k - 1)
    }
}

/// The end of a list, at most `n` long.
pub open spec fn last_of(s: Seq<i128>, n: nat) -> Seq<i128> {
    if s.len() <= n {
        s
    } else {
        s.skip(s.len() - n)
    }
}

/// The p99 of every window of a run that was not hot and saw a request.
pub open spec fn normal_p99s(memory: nat, run: Seq<Seen>) -> Seq<i128>
    decreases run.len(),
{
    if run.len() == 0 {
        seq![]
    } else {
        let k = run.len() - 1;
        let before = normal_p99s(memory, run.drop_last());
        if !hot_at(unused(memory), run, k) && run[k].p99_ns > 0 {
            before.push(run[k].p99_ns as i128)
        } else {
            before
        }
    }
}

/// The known vote lag of every window of a run that was not hot.
pub open spec fn normal_lags(memory: nat, run: Seq<Seen>) -> Seq<i128>
    decreases run.len(),
{
    if run.len() == 0 {
        seq![]
    } else {
        let k = run.len() - 1;
        let before = normal_lags(memory, run.drop_last());
        if !hot_at(unused(memory), run, k) && run[k].lag is Slots {
            before.push(run[k].lag->0 as i128)
        } else {
            before
        }
    }
}

/// The baseline and the norm rest on the most recent normal windows, as many as
/// the memory holds, and on no others.
pub proof fn law_memory_holds_the_last_normal_windows(memory: nat, run: Seq<Seen>)
    ensures
        state_after(unused(memory), run).normal == last_of(normal_p99s(memory, run), memory),
        state_after(unused(memory), run).lags == last_of(normal_lags(memory, run), memory),
        state_after(unused(memory), run).memory == memory,
    decreases run.len(),
{
    if run.len() > 0 {
        let k = run.len() - 1;
        let front = run.drop_last();
        law_memory_holds_the_last_normal_windows(memory, front);
        assert(run.take(k) =~= front);
        let p = normal_p99s(memory, front);
        let l = normal_lags(memory, front);
        lemma_remembered_last(p, run[k].p99_ns as i128, memory);
        if run[k].lag is Slots {
            lemma_remembered_last(l, run[k].lag->0 as i128, memory);
        }
    }
}

proof fn lemma_remembered_last(s: Seq<i128>, x: i128, memory: nat)
    ensures
        remembered(last_of(s, memory), x, memory) == last_of(s.push(x), memory),
{
    assert(remembered(last_of(s, memory), x, memory) =~= last_of(s.push(x), memory));
}

/// An alert names the baseline and the norm that the window was held against,
/// with the window's own p99 and lag.
pub proof fn law_alert_names_its_figures(
    state: DriftState,
    b: u64,
    n: i64,
    p99_ns: u64,
    lag: Lag,
)
    requires
        parts_in_half(state.normal, b as i128),
    ensures
        alert_of(state, p99_ns, lag).baseline_ns == b,
        alert_of(state, p99_ns, lag).p99_ns == p99_ns,
        alert_of(state, p99_ns, lag).lag == lag,
        parts_in_half(state.lags, n as i128) ==> alert_of(state, p99_ns, lag).norm == Some(n),
        state.lags.len() == 0 ==> alert_of(state, p99_ns, lag).norm is None,
{
    assert(state.normal.len() > 0);
    law_median_parts_in_half(state.normal);
    if parts_in_half(state.lags, n as i128) {
        assert(state.lags.len() > 0);
        law_median_parts_in_half(state.lags);
    }
}

/// An alert counts the hot windows in a row that it ends: all of them are hot,
/// and the one before them is not.
pub proof fn law_alert_counts_the_hot_windows(memory: nat, run: Seq<Seen>, k: int)
    requires
        0 <= k < run.len() < u64::MAX,
        fires_at(unused(memory), run, k),
    ensures
        ({
            let windows = alert_of(
                state_after(unused(memory), run.take(k)),
                run[k].p99_ns,
                run[k].lag,
            ).windows;
            &&& 3 <= windows <= k + 1
            &&& forall|j: int| k - windows < j <= k ==> #[trigger] hot_at(unused(memory), run, j)
            &&& windows <= k ==> !hot_at(unused(memory), run, k - windows)
        }),
{
    let start = unused(memory);
    lemma_streak_counts(start, run, k);
    law_alert_needs_three_hot_windows(start, run, k);
}

proof fn lemma_streak_counts(start: DriftState, run: Seq<Seen>, k: int)
    requires
        start.streak == 0,
        0 <= k <= run.len() < u64::MAX,
    ensures
        ({
            let w = state_after(start, run.take(k)).streak;
            &&& w <= k
            &&& forall|j: int| k - w <= j < k ==> #[trigger] hot_at(start, run, j)
            &&& w < k ==> !hot_at(start, run, k - w - 1)
        }),
    decreases k,
{
    assert(run.take(0) =~= seq![]);
    if k > 0 {
        lemma_streak_counts(start, run, k - 1);
        lemma_take_step(start, run, k - 1);
    }
}

/// The line of an alert names the p99, the whole multiple of the baseline that
/// it reaches, the baseline, the number of windows, the lag and the norm.
pub proof fn law_alert_line_names_the_multiple(a: Alert, times: nat)
    requires
        a.baseline_ns > 0,
        times * a.baseline_ns <= a.p99_ns < (times + 1) * a.baseline_ns,
    ensures
        starts_with(
            alert_text(a),
            "!! DRIFT: disk p99 "@ + latency_text(a.p99_ns as nat) + " = "@ + decimal(times)
                + "x baseline "@ + latency_text(a.baseline_ns as nat) + " for "@ + decimal(
                a.windows as nat,
            ) + " windows, vote lag "@,
        ),
        a.lag is Dead && a.norm is None ==> ends_with(
            alert_text(a),
            " windows, vote lag "@ + "DOWN"@ + " vs norm "@ + "unknown"@
                + ". disk is the lead signal"@,
        ),
        a.lag is Dead && a.norm is Some ==> ends_with(
            alert_text(a),
            " windows, vote lag "@ + "DOWN"@ + " vs norm "@ + signed_decimal(a.norm->0 as int)
                + ". disk is the lead signal"@,
        ),
        a.lag is Unknown && a.norm is None ==> ends_with(
            alert_text(a),
            " windows, vote lag "@ + "unknown"@ + " vs norm "@ + "unknown"@
                + ". disk is the lead signal"@,
        ),
        a.lag is Unknown && a.norm is Some ==> ends_with(
            alert_text(a),
            " windows, vote lag "@ + "unknown"@ + " vs norm "@ + signed_decimal(a.norm->0 as int)
                + ". disk is the lead signal"@,
        ),
        a.lag is Slots && a.norm is None ==> ends_with(
            alert_text(a),
            " windows, vote lag "@ + signed_decimal(a.lag->0 as int) + " vs norm "@ + "unknown"@
                + ". disk is the lead signal"@,
        ),
        a.lag is Slots && a.norm is Some ==> ends_with(
            alert_text(a),
            " windows, vote lag "@ + signed_decimal(a.lag->0 as int) + " vs norm "@
                + signed_decimal(a.norm->0 as int) + ". disk is the lead signal"@,
        ),
{
    let p = a.p99_ns as nat;
    let b = a.baseline_ns as nat;
    assert(p / b == times) by (nonlinear_arith)
        requires
            b > 0,
            times * b <= p < (times + 1) * b,
    ;
    let head = "!! DRIFT: disk p99 "@ + latency_text(p) + " = "@ + decimal(times) + "x baseline "@
        + latency_text(b) + " for "@ + decimal(a.windows as nat);
    let front = head + " windows, vote lag "@;
    let back = lag_text(a.lag) + " vs norm "@ + norm_text(a.norm) + ". disk is the lead signal"@;
    let mid = " windows, vote lag "@ + lag_text(a.lag) + " vs norm "@ + norm_text(a.norm)
        + ". disk is the lead signal"@;
    lemma_front(front, back);
    assert(alert_text(a) =~= front + back);
    lemma_back(head, mid);
    assert(alert_text(a) =~= head + mid);
}

} // verus!
