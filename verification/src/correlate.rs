//! One timeline: hold the latest validator sample, report one combined line (or
//! JSON object) per disk window, and put every window to the drift rule.

use vstd::prelude::*;
use crate::disk::{compact_stats, compact_stats_text};
use crate::drift::{
    alert_of, alert_text, state_after, unused, DriftRule, DriftState, Lag, Seen, STREAK,
};
use crate::json::{
    bool_value, insert, int_value, json_of, json_text, new_members, no_members, null_value,
    object_value, text_value, uint_value, value_text, JsonTree,
};
use crate::output::{compact, compact_text, json_label_of, state, state_of};
use crate::rpc::{text_of, Sample, SampleView, ValidatorSample};
use crate::text::{decimal, lemma_front, push_decimal, push_two_digits, starts_with, two_digits};
use crate::window::WindowStats;

verus! {

/// The clock at the time of a window.
#[derive(Debug, Clone, Copy)]
pub struct Clock {
    /// Seconds since the tool started.
    pub elapsed_secs: u64,
    /// Seconds since the Unix epoch.
    pub epoch_secs: u64,
}

/// A stopwatch reading as text.
pub open spec fn elapsed_text(secs: nat) -> Seq<char> {
    if secs >= 3600 {
        "+"@ + decimal(secs / 3600) + ":"@ + two_digits(secs / 60 % 60) + ":"@ + two_digits(
            secs % 60,
        )
    } else {
        "+"@ + two_digits(secs / 60) + ":"@ + two_digits(secs % 60)
    }
}

/// A reachable validator as JSON.
pub open spec fn up_tree(s: ValidatorSample) -> JsonTree {
    JsonTree::Object(
        no_members().insert("state"@, JsonTree::Text(json_label_of(state_of(s)))).insert(
            "epoch"@,
            JsonTree::Int(s.epoch as int),
        ).insert("slot"@, JsonTree::Int(s.network_slot as int)).insert(
            "last_vote"@,
            JsonTree::Int(s.my_last_vote as int),
        ).insert("vote_lag"@, JsonTree::Int(s.vote_lag as int)).insert(
            "credits"@,
            JsonTree::Int(s.credits as int),
        ).insert("delinquent"@, JsonTree::Bool(s.delinquent)).insert(
            "healthy"@,
            JsonTree::Bool(s.healthy),
        ),
    )
}

/// The validator's half of a window's JSON object.
pub open spec fn validator_tree(v: Option<SampleView>) -> JsonTree {
    match v {
        Some(SampleView::Up(s)) => up_tree(s),
        Some(SampleView::Down(reason)) => JsonTree::Object(
            no_members().insert("state"@, JsonTree::Text("down"@)).insert(
                "reason"@,
                JsonTree::Text(reason),
            ),
        ),
        None => JsonTree::Null,
    }
}

/// The disk's half of a window's JSON object, latencies in microseconds.
pub open spec fn disk_tree(w: WindowStats) -> JsonTree {
    JsonTree::Object(
        no_members().insert("window_secs"@, JsonTree::Int(w.window_secs as int)).insert(
            "reqs"@,
            JsonTree::Int(w.reqs as int),
        ).insert("writes"@, JsonTree::Int(w.writes as int)).insert(
            "reads"@,
            JsonTree::Int(w.reads as int),
        ).insert("others"@, JsonTree::Int(w.others as int)).insert(
            "bytes"@,
            JsonTree::Int(w.bytes as int),
        ).insert("errors"@, JsonTree::Int(w.errors as int)).insert(
            "p50_us"@,
            JsonTree::Int(w.p50_ns as int / 1_000),
        ).insert("p99_us"@, JsonTree::Int(w.p99_ns as int / 1_000)).insert(
            "max_us"@,
            JsonTree::Int(w.max_ns as int / 1_000),
        ),
    )
}

/// The JSON object of a window.
pub open spec fn window_tree(w: WindowStats, v: Option<SampleView>, ts: u64) -> JsonTree {
    JsonTree::Object(
        no_members().insert("ts"@, JsonTree::Int(ts as int)).insert("disk"@, disk_tree(w)).insert(
            "validator"@,
            validator_tree(v),
        ),
    )
}

/// The validator's half of a combined line.
pub open spec fn validator_text(v: Option<SampleView>) -> Seq<char> {
    match v {
        Some(s) => compact_text(s),
        None => "validator: no sample yet"@,
    }
}

/// What is printed for a window.
pub open spec fn window_text(
    w: WindowStats,
    v: Option<SampleView>,
    json_mode: bool,
    clock: Clock,
) -> Seq<char> {
    if json_mode {
        json_text(window_tree(w, v, clock.epoch_secs))
    } else {
        elapsed_text(clock.elapsed_secs as nat) + " | "@ + compact_stats_text(w) + " || "@
            + validator_text(v)
    }
}

/// The view of an optional sample.
pub open spec fn sample_view(v: Option<Sample>) -> Option<SampleView> {
    match v {
        Some(s) => Some(s@),
        None => None,
    }
}

/// The vote lag that a sample shows.
pub open spec fn lag_of(v: Option<SampleView>) -> Lag {
    match v {
        None => Lag::Unknown,
        Some(SampleView::Up(s)) => Lag::Slots(s.vote_lag),
        Some(SampleView::Down(_)) => Lag::Dead,
    }
}

/// Stopwatch since start, free of time zones.
pub fn elapsed(secs: u64) -> (r: String)
    ensures
        r@ == elapsed_text(secs as nat),
{
    let mut out = String::from_str("+");
    if secs >= 3600 {
        push_decimal(&mut out, secs / 3600);
        out.append(":");
        push_two_digits(&mut out, (secs / 60) % 60);
    } else {
        push_two_digits(&mut out, secs / 60);
    }
    out.append(":");
    push_two_digits(&mut out, secs % 60);
    out
}

/// The timestamp: the seconds since the epoch, or 0 before it.
pub open spec fn timestamp_of(since_epoch: Option<u64>) -> u64 {
    match since_epoch {
        Some(secs) => secs,
        None => 0,
    }
}

/// The timestamp from what the system clock says: a clock before the epoch
/// counts as 0.
pub fn epoch_secs(since_epoch: Option<u64>) -> (r: u64)
    ensures
        r == timestamp_of(since_epoch),
{
    since_epoch.unwrap_or(0)
}

/// A reachable validator as JSON.
pub fn up_json(s: &ValidatorSample) -> (r: serde_json::Value)
    ensures
        json_of(r) == up_tree(*s),
{
    let mut m = new_members();
    insert(&mut m, "state", text_value(state(s).json_label()));
    insert(&mut m, "epoch", uint_value(s.epoch));
    insert(&mut m, "slot", uint_value(s.network_slot));
    insert(&mut m, "last_vote", uint_value(s.my_last_vote));
    insert(&mut m, "vote_lag", int_value(s.vote_lag));
    insert(&mut m, "credits", uint_value(s.credits));
    insert(&mut m, "delinquent", bool_value(s.delinquent));
    insert(&mut m, "healthy", bool_value(s.healthy));
    object_value(m)
}

fn validator_json(v: &Option<Sample>) -> (r: serde_json::Value)
    ensures
        json_of(r) == validator_tree(sample_view(*v)),
{
    match v {
        Some(Sample::Up(s)) => up_json(s),
        Some(Sample::Down { reason }) => {
            let mut m = new_members();
            insert(&mut m, "state", text_value("down"));
            insert(&mut m, "reason", text_value(reason.as_str()));
            object_value(m)
        },
        None => null_value(),
    }
}

fn disk_json(w: &WindowStats) -> (r: serde_json::Value)
    ensures
        json_of(r) == disk_tree(*w),
{
    let mut m = new_members();
    insert(&mut m, "window_secs", uint_value(w.window_secs));
    insert(&mut m, "reqs", uint_value(w.reqs));
    insert(&mut m, "writes", uint_value(w.writes));
    insert(&mut m, "reads", uint_value(w.reads));
    insert(&mut m, "others", uint_value(w.others));
    insert(&mut m, "bytes", uint_value(w.bytes));
    insert(&mut m, "errors", uint_value(w.errors));
    insert(&mut m, "p50_us", uint_value(w.p50_ns / 1_000));
    insert(&mut m, "p99_us", uint_value(w.p99_ns / 1_000));
    insert(&mut m, "max_us", uint_value(w.max_ns / 1_000));
    object_value(m)
}

/// The JSON object of a window, before it is written as text.
pub fn window_json(w: &WindowStats, v: &Option<Sample>, ts: u64) -> (r: serde_json::Value)
    ensures
        json_of(r) == window_tree(*w, sample_view(*v), ts),
{
    let mut m = new_members();
    insert(&mut m, "ts", uint_value(ts));
    insert(&mut m, "disk", disk_json(w));
    insert(&mut m, "validator", validator_json(v));
    object_value(m)
}

/// The JSON object of a window, as one line of text.
pub fn to_json(w: &WindowStats, v: &Option<Sample>, ts: u64) -> (r: String)
    ensures
        r@ == json_text(window_tree(*w, sample_view(*v), ts)),
        !r@.contains('\n'),
{
    value_text(&window_json(w, v, ts))
}

/// What is printed for a window: a JSON object, or a line for people with the
/// disk on the left and the validator on the right.
pub fn emit(w: &WindowStats, v: &Option<Sample>, json_mode: bool, clock: Clock) -> (r: String)
    requires
        json_mode || w.window_secs > 0,
    ensures
        r@ == window_text(*w, sample_view(*v), json_mode, clock),
        json_mode ==> !r@.contains('\n'),
{
    if json_mode {
        to_json(w, v, clock.epoch_secs)
    } else {
        let mut out = elapsed(clock.elapsed_secs);
        out.append(" | ");
        out.append(compact_stats(w).as_str());
        out.append(" || ");
        match v {
            Some(s) => out.append(compact(s).as_str()),
            None => out.append("validator: no sample yet"),
        }
        out
    }
}

/// What the two streams deliver; `None` when a stream has ended.
pub enum Event {
    Sample(Option<Sample>),
    Window(Option<WindowStats>),
}

/// An `Event` as a mathematical value.
pub enum EventView {
    Sample(SampleView),
    Window(WindowStats),
    End,
}

impl View for Event {
    type V = EventView;

    open spec fn view(&self) -> EventView {
        match *self {
            Event::Sample(Some(s)) => EventView::Sample(s@),
            Event::Window(Some(w)) => EventView::Window(w),
            Event::Sample(None) | Event::Window(None) => EventView::End,
        }
    }
}

/// What is printed for a window: its line, and the drift alert where one fires.
pub struct Report {
    pub line: String,
    pub alert: Option<String>,
}

/// What to do after an event.
pub enum Action {
    Wait,
    Print(Report),
    Stop,
}

/// The latest validator sample and the drift rule's memory.
pub struct Timeline {
    pub latest: Option<SampleView>,
    pub drift: DriftState,
}

impl Timeline {
    /// The timeline after an event: a sample replaces the latest one, a window
    /// is put to the drift rule with the lag that the latest sample shows.
    pub open spec fn after(self, event: EventView) -> Timeline {
        match event {
            EventView::Sample(s) => Timeline { latest: Some(s), ..self },
            EventView::Window(w) => Timeline {
                drift: self.drift.after(w.p99_ns, lag_of(self.latest)),
                ..self
            },
            EventView::End => self,
        }
    }

    /// The alert that a window fires, as text.
    pub open spec fn alert(self, w: WindowStats) -> Option<Seq<char>> {
        if self.drift.fires(w.p99_ns, lag_of(self.latest)) {
            Some(alert_text(alert_of(self.drift, w.p99_ns, lag_of(self.latest))))
        } else {
            None
        }
    }
}

/// Joins the two streams on one timeline.
pub struct Correlator {
    latest: Option<Sample>,
    rule: DriftRule,
    json_mode: bool,
}

impl View for Correlator {
    type V = Timeline;

    closed spec fn view(&self) -> Timeline {
        Timeline { latest: sample_view(self.latest), drift: self.rule@ }
    }
}

impl Correlator {
    /// The drift rule's memory is sound.
    pub closed spec fn wf(self) -> bool {
        self.rule.wf()
    }

    /// Whether windows are printed as JSON.
    pub closed spec fn prints_json(self) -> bool {
        self.json_mode
    }

    /// No sample yet, and a drift rule over `memory` windows.
    pub fn new(json_mode: bool, memory: usize) -> (r: Correlator)
        ensures
            r.wf(),
            r.prints_json() == json_mode,
            r@ == (Timeline { latest: None, drift: unused(memory as nat) }),
    {
        Correlator { latest: None, rule: DriftRule::new(memory), json_mode }
    }

    fn lag(&self) -> (r: Lag)
        ensures
            r == lag_of(self@.latest),
    {
        match &self.latest {
            None => Lag::Unknown,
            Some(Sample::Up(s)) => Lag::Slots(s.vote_lag),
            Some(Sample::Down { .. }) => Lag::Dead,
        }
    }

    /// Takes one event. A sample is kept for the windows to come; a window is
    /// printed beside the latest sample, with the alert where it fires one; the
    /// end of either stream is the end.
    pub fn combine(&mut self, event: Event, clock: Clock) -> (r: Action)
        requires
            old(self).wf(),
            event@ matches EventView::Window(w) ==> old(self).prints_json() || w.window_secs > 0,
        ensures
            final(self).wf(),
            final(self).prints_json() == old(self).prints_json(),
            final(self)@ == old(self)@.after(event@),
            match event@ {
                EventView::Sample(_) => r is Wait,
                EventView::Window(w) => {
                    &&& r is Print
                    &&& r->Print_0.line@ == window_text(
                        w,
                        old(self)@.latest,
                        old(self).prints_json(),
                        clock,
                    )
                    &&& old(self).prints_json() ==> !r->Print_0.line@.contains('\n')
                    &&& text_of(r->Print_0.alert) == old(self)@.alert(w)
                },
                EventView::End => r is Stop,
            },
    {
        match event {
            Event::Sample(Some(s)) => {
                self.latest = Some(s);
                Action::Wait
            },
            Event::Window(Some(w)) => {
                let line = emit(&w, &self.latest, self.json_mode, clock);
                let lag = self.lag();
                let alert = match self.rule.observe(w.p99_ns, lag) {
                    Some(a) => Some(a.line()),
                    None => None,
                };
                Action::Print(Report { line, alert })
            },
            Event::Sample(None) | Event::Window(None) => Action::Stop,
        }
    }
}

/// The timeline after a run of events.
pub open spec fn timeline_after(start: Timeline, events: Seq<EventView>) -> Timeline
    decreases events.len(),
{
    if events.len() == 0 {
        start
    } else {
        timeline_after(start, events.drop_last()).after(events.last())
    }
}

/// The most recent sample of a run of events, or the one from before it.
pub open spec fn last_sample(latest: Option<SampleView>, events: Seq<EventView>) -> Option<
    SampleView,
>
    decreases events.len(),
{
    if events.len() == 0 {
        latest
    } else {
        match events.last() {
            EventView::Sample(s) => Some(s),
            _ => last_sample(latest, events.drop_last()),
        }
    }
}

/// The windows of a run of events, each with the lag of the sample before it.
pub open spec fn windows_seen(latest: Option<SampleView>, events: Seq<EventView>) -> Seq<Seen>
    decreases events.len(),
{
    if events.len() == 0 {
        seq![]
    } else {
        let earlier = windows_seen(latest, events.drop_last());
        match events.last() {
            EventView::Window(w) => earlier.push(
                Seen { p99_ns: w.p99_ns, lag: lag_of(last_sample(latest, events.drop_last())) },
            ),
            _ => earlier,
        }
    }
}

/// Both signals stand on one timeline: every window is put to the drift rule
/// exactly once, in order, with whatever the validator looked like at that
/// moment.
pub proof fn law_windows_meet_latest_sample(start: Timeline, events: Seq<EventView>)
    ensures
        timeline_after(start, events).latest == last_sample(start.latest, events),
        timeline_after(start, events).drift == state_after(
            start.drift,
            windows_seen(start.latest, events),
        ),
    decreases events.len(),
{
    if events.len() > 0 {
        law_windows_meet_latest_sample(start, events.drop_last());
        let earlier = windows_seen(start.latest, events.drop_last());
        match events.last() {
            EventView::Window(w) => {
                let seen = windows_seen(start.latest, events);
                assert(seen.drop_last() =~= earlier);
            },
            _ => {},
        }
    }
}

/// An outage counts as the worst case: with the validator unreachable, a third
/// hot window in a row fires the alert whatever the lag's norm.
pub proof fn law_outage_is_worst_case(t: Timeline, w: WindowStats)
    requires
        t.latest matches Some(SampleView::Down(_)),
        t.drift.armed,
        t.drift.streak >= STREAK - 1,
        t.drift.hot(w.p99_ns),
    ensures
        t.alert(w) is Some,
{
}

/// A reader finds every figure of a window under its own name.
pub proof fn law_window_object_has_every_figure(w: WindowStats, v: Option<SampleView>, ts: u64)
    ensures
        ({
            let t = window_tree(w, v, ts);
            let disk = t.member("disk"@);
            &&& t.member("ts"@) == JsonTree::Int(ts as int)
            &&& t.member("validator"@) == validator_tree(v)
            &&& disk.member("window_secs"@) == JsonTree::Int(w.window_secs as int)
            &&& disk.member("reqs"@) == JsonTree::Int(w.reqs as int)
            &&& disk.member("writes"@) == JsonTree::Int(w.writes as int)
            &&& disk.member("reads"@) == JsonTree::Int(w.reads as int)
            &&& disk.member("others"@) == JsonTree::Int(w.others as int)
            &&& disk.member("bytes"@) == JsonTree::Int(w.bytes as int)
            &&& disk.member("errors"@) == JsonTree::Int(w.errors as int)
            &&& disk.member("p50_us"@) == JsonTree::Int(w.p50_ns as int / 1_000)
            &&& disk.member("p99_us"@) == JsonTree::Int(w.p99_ns as int / 1_000)
            &&& disk.member("max_us"@) == JsonTree::Int(w.max_ns as int / 1_000)
        }),
{
    reveal_strlit("ts");
    assert("ts"@.len() == 2);
    reveal_strlit("disk");
    assert("disk"@.len() == 4);
    reveal_strlit("validator");
    assert("validator"@.len() == 9);
    reveal_strlit("window_secs");
    assert("window_secs"@.len() == 11);
    reveal_strlit("reqs");
    assert("reqs"@.len() == 4);
    reveal_strlit("writes");
    assert("writes"@.len() == 6);
    reveal_strlit("reads");
    assert("reads"@.len() == 5);
    reveal_strlit("others");
    assert("others"@.len() == 6);
    reveal_strlit("bytes");
    assert("bytes"@.len() == 5);
    reveal_strlit("errors");
    assert("errors"@.len() == 6);
    reveal_strlit("p50_us");
    assert("p50_us"@.len() == 6);
    reveal_strlit("p99_us");
    assert("p99_us"@.len() == 6);
    reveal_strlit("max_us");
    assert("max_us"@.len() == 6);
    assert("writes"@[0] != "others"@[0]);
    assert("writes"@[0] != "errors"@[0]);
    assert("writes"@[0] != "p50_us"@[0]);
    assert("writes"@[0] != "p99_us"@[0]);
    assert("writes"@[0] != "max_us"@[0]);
    assert("reads"@[0] != "bytes"@[0]);
    assert("others"@[0] != "errors"@[0]);
    assert("others"@[0] != "p50_us"@[0]);
    assert("others"@[0] != "p99_us"@[0]);
    assert("others"@[0] != "max_us"@[0]);
    assert("errors"@[0] != "p50_us"@[0]);
    assert("errors"@[0] != "p99_us"@[0]);
    assert("errors"@[0] != "max_us"@[0]);
    assert("p50_us"@[1] != "p99_us"@[1]);
    assert("p50_us"@[0] != "max_us"@[0]);
    assert("p99_us"@[0] != "max_us"@[0]);
}

/// A reader finds every figure of a reachable validator under its own name, and
/// of an unreachable one the state and the reason.
pub proof fn law_validator_object_has_every_figure(s: ValidatorSample, reason: Seq<char>)
    ensures
        ({
            let t = validator_tree(Some(SampleView::Up(s)));
            &&& t.member("state"@) == JsonTree::Text(json_label_of(state_of(s)))
            &&& t.member("epoch"@) == JsonTree::Int(s.epoch as int)
            &&& t.member("slot"@) == JsonTree::Int(s.network_slot as int)
            &&& t.member("last_vote"@) == JsonTree::Int(s.my_last_vote as int)
            &&& t.member("vote_lag"@) == JsonTree::Int(s.vote_lag as int)
            &&& t.member("credits"@) == JsonTree::Int(s.credits as int)
            &&& t.member("delinquent"@) == JsonTree::Bool(s.delinquent)
            &&& t.member("healthy"@) == JsonTree::Bool(s.healthy)
        }),
        ({
            let t = validator_tree(Some(SampleView::Down(reason)));
            &&& t.member("state"@) == JsonTree::Text("down"@)
            &&& t.member("reason"@) == JsonTree::Text(reason)
        }),
{
    reveal_strlit("state");
    assert("state"@.len() == 5);
    reveal_strlit("epoch");
    assert("epoch"@.len() == 5);
    reveal_strlit("slot");
    assert("slot"@.len() == 4);
    reveal_strlit("last_vote");
    assert("last_vote"@.len() == 9);
    reveal_strlit("vote_lag");
    assert("vote_lag"@.len() == 8);
    reveal_strlit("credits");
    assert("credits"@.len() == 7);
    reveal_strlit("delinquent");
    assert("delinquent"@.len() == 10);
    reveal_strlit("healthy");
    assert("healthy"@.len() == 7);
    assert("state"@[0] != "epoch"@[0]);
    assert("credits"@[0] != "healthy"@[0]);
    reveal_strlit("reason");
    assert("reason"@.len() == 6);
}

/// A stopwatch reading is taken apart into hours, minutes below sixty and seconds
/// below sixty; the hours are shown only where there are any.
pub proof fn law_elapsed_shows_hours_minutes_seconds(hours: nat, minutes: nat, seconds: nat)
    requires
        minutes < 60,
        seconds < 60,
    ensures
        hours == 0 ==> elapsed_text(60 * minutes + seconds) == seq!['+'] + two_digits(minutes)
            + seq![':'] + two_digits(seconds),
        hours > 0 ==> elapsed_text(3_600 * hours + 60 * minutes + seconds) == seq!['+'] + decimal(
            hours,
        ) + seq![':'] + two_digits(minutes) + seq![':'] + two_digits(seconds),
{
    reveal_strlit("+");
    reveal_strlit(":");
    assert("+"@ =~= seq!['+']);
    assert(":"@ =~= seq![':']);
    let short = 60 * minutes + seconds;
    assert(short < 3_600 && short / 60 == minutes && short % 60 == seconds);
    lemma_taken_apart(hours, minutes, seconds);
}

proof fn lemma_taken_apart(hours: nat, minutes: nat, seconds: nat)
    requires
        minutes < 60,
        seconds < 60,
    ensures
        ({
            let secs = 3_600 * hours + 60 * minutes + seconds;
            &&& secs / 3_600 == hours
            &&& secs / 60 % 60 == minutes
            &&& secs % 60 == seconds
        }),
{
    let secs = 3_600 * hours + 60 * minutes + seconds;
    assert(secs == 60 * (60 * hours + minutes) + seconds);
    assert(secs / 60 == 60 * hours + minutes);
}

/// A later clock never gives an earlier timestamp, a clock before the epoch gives
/// the earliest, and no two clocks after it give the same.
pub proof fn law_timestamps_keep_order(a: u64, b: u64)
    ensures
        a < b <==> timestamp_of(Some(a)) < timestamp_of(Some(b)),
        timestamp_of(None) <= timestamp_of(Some(a)),
        timestamp_of(None) == 0,
        timestamp_of(Some(a)) - timestamp_of(Some(b)) == a - b,
{
}

/// A line for people is the stopwatch, the short form of the window and, behind
/// two bars, the short form of the latest sample. The sample changes nothing left
/// of the bars, and the window and the clock nothing right of them.
pub proof fn law_line_has_disk_left_and_validator_right(
    w: WindowStats,
    s: SampleView,
    clock: Clock,
)
    ensures
        ({
            let left = elapsed_text(clock.elapsed_secs as nat) + " | "@ + compact_stats_text(w)
                + " || "@;
            let with = window_text(w, Some(s), false, clock);
            let without = window_text(w, None, false, clock);
            &&& starts_with(with, left)
            &&& with.skip(left.len() as int) == compact_text(s)
            &&& starts_with(without, left)
            &&& without.skip(left.len() as int) == "validator: no sample yet"@
        }),
{
    let left = elapsed_text(clock.elapsed_secs as nat) + " | "@ + compact_stats_text(w) + " || "@;
    lemma_front(left, compact_text(s));
    assert((left + compact_text(s)).skip(left.len() as int) =~= compact_text(s));
    lemma_front(left, "validator: no sample yet"@);
    assert((left + "validator: no sample yet"@).skip(left.len() as int)
        =~= "validator: no sample yet"@);
}

/// In JSON mode a window is the text of an object with three members: the time of
/// day, the disk and the validator, which is null before the first sample. The
/// latencies are whole microseconds, as many as have passed.
pub proof fn law_json_line_is_the_object_of_the_window(
    w: WindowStats,
    v: Option<SampleView>,
    clock: Clock,
    p50_us: int,
    p99_us: int,
    max_us: int,
) -> (t: JsonTree)
    requires
        p50_us * 1_000 <= w.p50_ns < p50_us * 1_000 + 1_000,
        p99_us * 1_000 <= w.p99_ns < p99_us * 1_000 + 1_000,
        max_us * 1_000 <= w.max_ns < max_us * 1_000 + 1_000,
    ensures
        window_text(w, v, true, clock) == json_text(t),
        t is Object && t->Object_0.dom() == set!["ts"@, "disk"@, "validator"@],
        t.member("ts"@) == JsonTree::Int(clock.epoch_secs as int),
        t.member("disk"@)->Object_0.dom() == set![
            "window_secs"@,
            "reqs"@,
            "writes"@,
            "reads"@,
            "others"@,
            "bytes"@,
            "errors"@,
            "p50_us"@,
            "p99_us"@,
            "max_us"@,
        ],
        t.member("disk"@).member("p50_us"@) == JsonTree::Int(p50_us),
        t.member("disk"@).member("p99_us"@) == JsonTree::Int(p99_us),
        t.member("disk"@).member("max_us"@) == JsonTree::Int(max_us),
        v is None ==> t.member("validator"@) == JsonTree::Null,
        v is Some ==> t.member("validator"@) is Object,
{
    let t = window_tree(w, v, clock.epoch_secs);
    law_window_object_has_every_figure(w, v, clock.epoch_secs);
    assert(t->Object_0.dom() =~= set!["ts"@, "disk"@, "validator"@]);
    reveal_strlit("disk");
    assert("disk"@.len() == 4);
    reveal_strlit("validator");
    assert("validator"@.len() == 9);
    assert(t.member("disk"@) == disk_tree(w));
    assert(disk_tree(w)->Object_0.dom() =~= set![
        "window_secs"@,
        "reqs"@,
        "writes"@,
        "reads"@,
        "others"@,
        "bytes"@,
        "errors"@,
        "p50_us"@,
        "p99_us"@,
        "max_us"@,
    ]);
    t
}

/// The state in a validator's object is `unhealthy`, `delinquent`, `lagging` or
/// `ok`, the gravest that holds; more than 150 slots behind is lagging. Of a
/// validator that cannot be reached it is `down`.
pub proof fn law_json_state_is_the_gravest(s: ValidatorSample, reason: Seq<char>)
    ensures
        ({
            let word = validator_tree(Some(SampleView::Up(s))).member("state"@);
            &&& !s.healthy ==> word == JsonTree::Text("unhealthy"@)
            &&& s.healthy && s.delinquent ==> word == JsonTree::Text("delinquent"@)
            &&& s.healthy && !s.delinquent && s.vote_lag > 150 ==> word == JsonTree::Text(
                "lagging"@,
            )
            &&& s.healthy && !s.delinquent && s.vote_lag <= 150 ==> word == JsonTree::Text("ok"@)
        }),
        validator_tree(Some(SampleView::Up(s)))->Object_0.dom() == set![
            "state"@,
            "epoch"@,
            "slot"@,
            "last_vote"@,
            "vote_lag"@,
            "credits"@,
            "delinquent"@,
            "healthy"@,
        ],
        validator_tree(Some(SampleView::Down(reason)))->Object_0.dom() == set![
            "state"@,
            "reason"@,
        ],
{
    law_validator_object_has_every_figure(s, reason);
    assert(up_tree(s)->Object_0.dom() =~= set![
        "state"@,
        "epoch"@,
        "slot"@,
        "last_vote"@,
        "vote_lag"@,
        "credits"@,
        "delinquent"@,
        "healthy"@,
    ]);
    assert(validator_tree(Some(SampleView::Down(reason)))->Object_0.dom() =~= set![
        "state"@,
        "reason"@,
    ]);
}

/// A window is judged with the lag of the latest sample: none yet fires nothing,
/// an outage is the worst case, and else the sample's lag counts.
pub proof fn law_window_is_judged_with_the_latest_lag(t: Timeline, w: WindowStats)
    ensures
        t.latest is None ==> t.alert(w) is None,
        t.latest matches Some(SampleView::Down(_)) ==> {
            &&& t.alert(w) is Some <==> t.drift.fires(w.p99_ns, Lag::Dead)
            &&& t.alert(w) is Some ==> t.alert(w)->0 == alert_text(
                alert_of(t.drift, w.p99_ns, Lag::Dead),
            )
        },
        t.latest matches Some(SampleView::Up(s)) ==> {
            &&& t.alert(w) is Some <==> t.drift.fires(w.p99_ns, Lag::Slots(s.vote_lag))
            &&& t.alert(w) is Some ==> t.alert(w)->0 == alert_text(
                alert_of(t.drift, w.p99_ns, Lag::Slots(s.vote_lag)),
            )
        },
{
}

/// A sample replaces the one before it and leaves the drift rule alone; a window
/// leaves the sample alone; the end of a stream changes nothing.
pub proof fn law_sample_and_window_do_not_mix(t: Timeline, s: SampleView, w: WindowStats)
    ensures
        t.after(EventView::Sample(s)).latest == Some(s),
        t.after(EventView::Sample(s)).drift == t.drift,
        t.after(EventView::Window(w)).latest == t.latest,
        t.latest is None ==> t.after(EventView::Window(w)).drift == t.drift.after(
            w.p99_ns,
            Lag::Unknown,
        ),
        t.latest == Some(s) && s is Down ==> t.after(EventView::Window(w)).drift == t.drift.after(
            w.p99_ns,
            Lag::Dead,
        ),
        t.latest == Some(s) && s is Up ==> t.after(EventView::Window(w)).drift == t.drift.after(
            w.p99_ns,
            Lag::Slots(s->Up_0.vote_lag),
        ),
        t.after(EventView::End) == t,
{
}

} // verus!
