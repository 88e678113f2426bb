//! The box-layer signal: disk events as lines, as windows and as summaries of
//! windows.

use vstd::prelude::*;
use crate::device::{dev_text, push_dev};
use crate::event::{DiskEvent, RW_READ, RW_WRITE};
use crate::text::{
    decimal, fields, free_of, grouped, lemma_decimal_chars, lemma_first_field,
    lemma_numbers_hold_no_separator, lemma_only_field, push_commas, push_decimal, push_signed,
    signed_decimal, tenths,
};
use crate::units::{
    latency_text, lemma_units_hold_no_separator, push_latency, push_rate, push_size, rate_tenths,
    size_text,
};
use crate::window::WindowStats;

verus! {

/// The letter for a request's direction.
pub open spec fn rw_letter(rw: u8) -> char {
    if rw == RW_READ {
        'R'
    } else if rw == RW_WRITE {
        'W'
    } else {
        'O'
    }
}

/// The error of a request, where it failed.
pub open spec fn error_text(error: int) -> Seq<char> {
    if error != 0 {
        " ERR="@ + signed_decimal(error)
    } else {
        ""@
    }
}

/// An event as text.
pub open spec fn event_text(ev: DiskEvent) -> Seq<char> {
    "disk "@ + dev_text(ev.dev) + " "@ + seq![rw_letter(ev.rw)] + " "@ + size_text(ev.bytes as nat)
        + " "@ + latency_text(ev.latency_ns as nat) + error_text(ev.error as int)
}

/// One event as a line, e.g. `disk 259:0 W 4.0K 812µs` or
/// `disk 259:0 R 128.0K 3.1ms ERR=-5`.
pub fn line(ev: &DiskEvent) -> (r: String)
    ensures
        r@ == event_text(*ev),
{
    let rw: char = if ev.rw == RW_READ {
        'R'
    } else if ev.rw == RW_WRITE {
        'W'
    } else {
        'O'
    };
    let mut out = String::from_str("disk ");
    push_dev(&mut out, ev.dev);
    out.append(" ");
    out.push(rw);
    out.append(" ");
    push_size(&mut out, ev.bytes);
    out.append(" ");
    push_latency(&mut out, ev.latency_ns);
    if ev.error != 0 {
        out.append(" ERR=");
        push_signed(&mut out, ev.error as i64);
    }
    proof {
        reveal_strlit("");
    }
    assert(out@ =~= event_text(*ev));
    out
}

/// The sum of the counters.
pub open spec fn sum_of(counters: Seq<u64>) -> nat
    decreases counters.len(),
{
    if counters.len() == 0 {
        0
    } else {
        sum_of(counters.drop_last()) + counters.last() as nat
    }
}

/// The total over all CPUs, as a 64-bit counter shows it.
pub open spec fn total_of(per_cpu: Seq<u64>) -> nat {
    sum_of(per_cpu) % 0x1_0000_0000_0000_0000
}

/// The warning about newly dropped events.
pub open spec fn drop_text(new: nat, total: nat) -> Seq<char> {
    "WARN: ringbuf dropped "@ + decimal(new) + " events (total "@ + decimal(total) + ")"@
}

/// Whether a total is reported by a watch that has seen `seen`.
pub open spec fn warns(seen: nat, total: nat) -> bool {
    total > seen
}

/// The drops that a warning reports.
pub open spec fn newly_dropped(seen: nat, total: nat) -> nat {
    (total - seen) as nat
}

/// The largest total seen, after one more.
pub open spec fn seen_after(seen: nat, total: nat) -> nat {
    if total > seen {
        total
    } else {
        seen
    }
}

/// The sum of the per-CPU counters, wrapping around at 2^64.
pub fn total_drops(per_cpu: &Vec<u64>) -> (r: u64)
    ensures
        r == total_of(per_cpu@),
{
    let mut total: u64 = 0;
    let mut i: usize = 0;
    assert(per_cpu@.take(0) =~= seq![]);
    while i < per_cpu.len()
        invariant
            i <= per_cpu.len(),
            total == total_of(per_cpu@.take(i as int)),
        decreases per_cpu.len() - i,
    {
        assert(per_cpu@.take(i + 1).drop_last() =~= per_cpu@.take(i as int));
        total = total.wrapping_add(per_cpu[i]);
        i += 1;
    }
    assert(per_cpu@.take(i as int) =~= per_cpu@);
    total
}

/// Watches the kernel's drop counter. A growing count means that the ring
/// buffer overflowed and the percentiles are missing events.
#[derive(Debug, Clone, Copy)]
pub struct DropWatch {
    last: u64,
}

impl DropWatch {
    /// The largest total seen so far.
    pub closed spec fn seen(self) -> nat {
        self.last as nat
    }

    /// A watch that has seen no drops.
    pub fn new() -> (r: DropWatch)
        ensures
            r.seen() == 0,
    {
        DropWatch { last: 0 }
    }

    /// Takes the per-CPU counters; a warning only when their total has grown.
    pub fn observe(&mut self, per_cpu: &Vec<u64>) -> (r: Option<String>)
        ensures
            r is Some <==> warns(old(self).seen(), total_of(per_cpu@)),
            r is Some ==> r->0@ == drop_text(
                newly_dropped(old(self).seen(), total_of(per_cpu@)),
                total_of(per_cpu@),
            ),
            final(self).seen() == seen_after(old(self).seen(), total_of(per_cpu@)),
    {
        let total: u64 = total_drops(per_cpu);
        if total > self.last {
            let mut out = String::from_str("WARN: ringbuf dropped ");
            push_decimal(&mut out, total - self.last);
            out.append(" events (total ");
            push_decimal(&mut out, total);
            out.append(")");
            self.last = total;
            Some(out)
        } else {
            None
        }
    }
}

/// The short form of a window, for the disk's half of a combined line.
pub open spec fn compact_stats_text(w: WindowStats) -> Seq<char> {
    "disk p99 "@ + latency_text(w.p99_ns as nat) + " | "@ + grouped(decimal(w.reqs as nat))
        + " reqs | "@ + tenths(rate_tenths(w.bytes as nat, w.window_secs as nat)) + " MB/s"@
}

/// The failed requests of a window, where there are any.
pub open spec fn errors_text(errors: nat) -> Seq<char> {
    if errors > 0 {
        " | "@ + grouped(decimal(errors)) + " errors"@
    } else {
        ""@
    }
}

/// The full summary of a window.
pub open spec fn stats_text(w: WindowStats) -> Seq<char> {
    "disk p50 "@ + latency_text(w.p50_ns as nat) + " | p99 "@ + latency_text(w.p99_ns as nat)
        + " | max "@ + latency_text(w.max_ns as nat) + " | "@ + grouped(decimal(w.reqs as nat))
        + " reqs | "@ + grouped(decimal(w.reqs as nat / w.window_secs as nat)) + " IOPS | "@
        + tenths(rate_tenths(w.bytes as nat, w.window_secs as nat)) + " MB/s"@ + errors_text(
        w.errors as nat,
    )
}

/// The short form of a window, e.g. `disk p99 59.2ms | 23,633 reqs | 30.8 MB/s`.
pub fn compact_stats(w: &WindowStats) -> (r: String)
    requires
        w.window_secs > 0,
    ensures
        r@ == compact_stats_text(*w),
{
    let mut out = String::from_str("disk p99 ");
    push_latency(&mut out, w.p99_ns);
    out.append(" | ");
    push_commas(&mut out, w.reqs);
    out.append(" reqs | ");
    push_rate(&mut out, w.bytes, w.window_secs);
    out.append(" MB/s");
    out
}

/// The full summary of a window: median, tail and worst latency, load, and
/// failures where there are any.
pub fn format_stats(w: &WindowStats) -> (r: String)
    requires
        w.window_secs > 0,
    ensures
        r@ == stats_text(*w),
{
    let mut out = String::from_str("disk p50 ");
    push_latency(&mut out, w.p50_ns);
    out.append(" | p99 ");
    push_latency(&mut out, w.p99_ns);
    out.append(" | max ");
    push_latency(&mut out, w.max_ns);
    out.append(" | ");
    push_commas(&mut out, w.reqs);
    out.append(" reqs | ");
    push_commas(&mut out, w.reqs / w.window_secs);
    out.append(" IOPS | ");
    push_rate(&mut out, w.bytes, w.window_secs);
    out.append(" MB/s");
    if w.errors > 0 {
        out.append(" | ");
        push_commas(&mut out, w.errors);
        out.append(" errors");
    }
    proof {
        reveal_strlit("");
    }
    assert(out@ =~= stats_text(*w));
    out
}

/// The drops that a run of warnings reports, from the totals seen one after the
/// other.
pub open spec fn reported(seen: nat, totals: Seq<nat>) -> nat
    decreases totals.len(),
{
    if totals.len() == 0 {
        0
    } else {
        let rest = reported(seen_after(seen, totals[0]), totals.drop_first());
        if warns(seen, totals[0]) {
            newly_dropped(seen, totals[0]) + rest
        } else {
            rest
        }
    }
}

/// What the watch has seen after a run of totals.
pub open spec fn peak(seen: nat, totals: Seq<nat>) -> nat
    decreases totals.len(),
{
    if totals.len() == 0 {
        seen
    } else {
        peak(seen_after(seen, totals[0]), totals.drop_first())
    }
}

/// Drops are reported without gap or overlap: the warnings add up to what the
/// counter has grown by since the watch began, up to the largest total there was.
pub proof fn law_drop_warnings_add_up(seen: nat, totals: Seq<nat>)
    ensures
        seen + reported(seen, totals) == peak(seen, totals),
        peak(seen, totals) >= seen,
        forall|i: int| 0 <= i < totals.len() ==> #[trigger] totals[i] <= peak(seen, totals),
        peak(seen, totals) == seen || totals.contains(peak(seen, totals)),
    decreases totals.len(),
{
    if totals.len() > 0 {
        let rest = totals.drop_first();
        let now = seen_after(seen, totals[0]);
        law_drop_warnings_add_up(now, rest);
        assert forall|i: int| 0 <= i < totals.len() implies #[trigger] totals[i] <= peak(
            seen,
            totals,
        ) by {
            if i > 0 {
                assert(rest[i - 1] == totals[i]);
            }
        }
        let top = peak(seen, totals);
        if rest.contains(top) {
            let k = choose|k: int| 0 <= k < rest.len() && rest[k] == top;
            assert(totals[k + 1] == top);
        } else if top != seen {
            assert(totals[0] == top);
        }
    }
}

/// A warning comes exactly when the total has grown, and what it reports and
/// what was seen before make up the total. An old total changes nothing.
pub proof fn law_warning_covers_the_growth(seen: nat, total: nat)
    ensures
        warns(seen, total) <==> seen < total,
        seen < total ==> seen + newly_dropped(seen, total) == total,
        seen < total ==> seen_after(seen, total) == total,
        total <= seen ==> seen_after(seen, total) == seen,
{
}

/// The total is the sum of all counters, as far as 64 bits show it.
pub proof fn law_total_counts_every_cpu(per_cpu: Seq<u64>)
    ensures
        total_of(per_cpu) < 0x1_0000_0000_0000_0000,
        (per_cpu.fold_left(0, |sum: int, n: u64| sum + n) - total_of(per_cpu))
            % 0x1_0000_0000_0000_0000 == 0,
{
    lemma_sum_folds(per_cpu);
}

proof fn lemma_sum_folds(per_cpu: Seq<u64>)
    ensures
        sum_of(per_cpu) == per_cpu.fold_left(0, |sum: int, n: u64| sum + n),
    decreases per_cpu.len(),
{
    reveal(Seq::fold_left);
    if per_cpu.len() > 0 {
        lemma_sum_folds(per_cpu.drop_last());
    }
}

/// A warning has seven words, the fourth the new drops and the last the total.
pub proof fn law_drop_warning_has_both_counts(new: nat, total: nat)
    ensures
        fields(drop_text(new, total), ' ') == seq![
            "WARN:"@,
            "ringbuf"@,
            "dropped"@,
            decimal(new),
            "events"@,
            "(total"@,
            decimal(total).push(')'),
        ],
{
    reveal_strlit("WARN: ringbuf dropped ");
    reveal_strlit(" events (total ");
    reveal_strlit(")");
    reveal_strlit("WARN:");
    reveal_strlit("ringbuf");
    reveal_strlit("dropped");
    reveal_strlit("events");
    reveal_strlit("(total");
    lemma_numbers_hold_no_separator(new, ' ');
    lemma_numbers_hold_no_separator(total, ' ');
    let space = seq![' '];
    let g = decimal(total).push(')');
    let f = "(total"@ + space + g;
    let e = "events"@ + space + f;
    let d = decimal(new) + space + e;
    let c = "dropped"@ + space + d;
    let b = "ringbuf"@ + space + c;
    lemma_only_field(g, ' ');
    lemma_first_field("(total"@, ' ', g);
    lemma_first_field("events"@, ' ', f);
    lemma_first_field(decimal(new), ' ', e);
    lemma_first_field("dropped"@, ' ', d);
    lemma_first_field("ringbuf"@, ' ', c);
    lemma_first_field("WARN:"@, ' ', b);
    assert("WARN: ringbuf dropped "@ =~= "WARN:"@ + space + "ringbuf"@ + space + "dropped"@ + space);
    assert(" events (total "@ =~= space + "events"@ + space + "(total"@ + space);
    assert(drop_text(new, total) =~= "WARN:"@ + space + b);
}

/// The words of an event's line are `disk`, the device, the direction's letter,
/// the size and the latency; one that failed has a sixth with the error.
pub proof fn law_event_line_has_its_words(ev: DiskEvent, letter: char)
    requires
        ev.rw == 0 ==> letter == 'R',
        ev.rw == 1 ==> letter == 'W',
        ev.rw > 1 ==> letter == 'O',
    ensures
        ev.error == 0 ==> fields(event_text(ev), ' ') == seq![
            "disk"@,
            dev_text(ev.dev),
            seq![letter],
            size_text(ev.bytes as nat),
            latency_text(ev.latency_ns as nat),
        ],
        ev.error != 0 ==> fields(event_text(ev), ' ') == seq![
            "disk"@,
            dev_text(ev.dev),
            seq![letter],
            size_text(ev.bytes as nat),
            latency_text(ev.latency_ns as nat),
            "ERR="@ + signed_decimal(ev.error as int),
        ],
{
    reveal_strlit("disk ");
    reveal_strlit("disk");
    reveal_strlit(" ");
    reveal_strlit(" ERR=");
    reveal_strlit("ERR=");
    reveal_strlit("");
    let dev = dev_text(ev.dev);
    let size = size_text(ev.bytes as nat);
    let lat = latency_text(ev.latency_ns as nat);
    let err = "ERR="@ + signed_decimal(ev.error as int);
    lemma_dev_holds_no_space(ev.dev);
    lemma_units_hold_no_separator(ev.bytes as nat, ' ');
    lemma_units_hold_no_separator(ev.latency_ns as nat, ' ');
    let size_of_error: nat = if ev.error < 0 {
        (-ev.error) as nat
    } else {
        ev.error as nat
    };
    lemma_numbers_hold_no_separator(size_of_error, ' ');
    let space = seq![' '];
    let tail = if ev.error == 0 {
        lat
    } else {
        lat + space + err
    };
    lemma_only_field(lat, ' ');
    lemma_only_field(err, ' ');
    lemma_first_field(lat, ' ', err);
    let d = size + space + tail;
    let c = seq![letter] + space + d;
    let b = dev + space + c;
    lemma_first_field(size, ' ', tail);
    lemma_first_field(seq![letter], ' ', d);
    lemma_first_field(dev, ' ', c);
    lemma_first_field("disk"@, ' ', b);
    assert("disk "@ =~= "disk"@ + space);
    assert(" "@ =~= space);
    assert(" ERR="@ =~= space + "ERR="@);
    assert(event_text(ev) =~= "disk"@ + space + b);
}

proof fn lemma_dev_holds_no_space(dev: u32)
    ensures
        free_of(dev_text(dev), ' '),
{
    reveal_strlit(":");
    lemma_decimal_chars(crate::device::major_of(dev) as nat);
    lemma_decimal_chars(crate::device::minor_of(dev) as nat);
}

/// The short form of a window has three fields: its p99, its requests and its
/// rate.
pub proof fn law_short_summary_has_its_fields(w: WindowStats)
    ensures
        fields(compact_stats_text(w), '|') == seq![
            "disk p99 "@ + latency_text(w.p99_ns as nat) + seq![' '],
            seq![' '] + grouped(decimal(w.reqs as nat)) + " reqs "@,
            seq![' '] + tenths(rate_tenths(w.bytes as nat, w.window_secs as nat)) + " MB/s"@,
        ],
{
    reveal_strlit("disk p99 ");
    reveal_strlit(" | ");
    reveal_strlit(" reqs | ");
    reveal_strlit(" reqs ");
    reveal_strlit(" MB/s");
    let rate = rate_tenths(w.bytes as nat, w.window_secs as nat);
    lemma_units_hold_no_separator(w.p99_ns as nat, '|');
    lemma_numbers_hold_no_separator(w.reqs as nat, '|');
    lemma_numbers_hold_no_separator(rate, '|');
    let bar = seq!['|'];
    let a = "disk p99 "@ + latency_text(w.p99_ns as nat) + seq![' '];
    let b = seq![' '] + grouped(decimal(w.reqs as nat)) + " reqs "@;
    let c = seq![' '] + tenths(rate) + " MB/s"@;
    lemma_only_field(c, '|');
    lemma_first_field(b, '|', c);
    lemma_first_field(a, '|', b + bar + c);
    assert(" | "@ =~= seq![' '] + bar + seq![' ']);
    assert(" reqs | "@ =~= " reqs "@ + bar + seq![' ']);
    assert(compact_stats_text(w) =~= a + bar + (b + bar + c));
}

/// The full summary has the p50, the p99, the maximum, the requests, the whole
/// requests per second and the rate, and a seventh field where requests failed.
pub proof fn law_full_summary_has_its_fields(w: WindowStats, iops: nat)
    requires
        iops * w.window_secs <= w.reqs < (iops + 1) * w.window_secs,
    ensures
        ({
            let six = seq![
                "disk p50 "@ + latency_text(w.p50_ns as nat) + seq![' '],
                " p99 "@ + latency_text(w.p99_ns as nat) + seq![' '],
                " max "@ + latency_text(w.max_ns as nat) + seq![' '],
                seq![' '] + grouped(decimal(w.reqs as nat)) + " reqs "@,
                seq![' '] + grouped(decimal(iops)) + " IOPS "@,
                seq![' '] + tenths(rate_tenths(w.bytes as nat, w.window_secs as nat)) + " MB/s"@,
            ];
            &&& w.errors == 0 ==> fields(stats_text(w), '|') == six
            &&& w.errors > 0 ==> fields(stats_text(w), '|') == six.drop_last() + seq![
                six.last() + seq![' '],
                seq![' '] + grouped(decimal(w.errors as nat)) + " errors"@,
            ]
        }),
{
    let reqs = w.reqs as nat;
    let secs = w.window_secs as nat;
    assert(reqs / secs == iops) by (nonlinear_arith)
        requires
            iops * secs <= reqs < (iops + 1) * secs,
    ;
    let rate = rate_tenths(w.bytes as nat, secs);
    lemma_units_hold_no_separator(w.p50_ns as nat, '|');
    lemma_units_hold_no_separator(w.p99_ns as nat, '|');
    lemma_units_hold_no_separator(w.max_ns as nat, '|');
    lemma_numbers_hold_no_separator(reqs, '|');
    lemma_numbers_hold_no_separator(iops, '|');
    lemma_numbers_hold_no_separator(rate, '|');
    lemma_numbers_hold_no_separator(w.errors as nat, '|');
    lemma_summary_fields(
        latency_text(w.p50_ns as nat),
        latency_text(w.p99_ns as nat),
        latency_text(w.max_ns as nat),
        grouped(decimal(reqs)),
        grouped(decimal(iops)),
        tenths(rate) + " MB/s"@ + errors_text(w.errors as nat),
    );
    lemma_summary_tail(tenths(rate), grouped(decimal(w.errors as nat)), w.errors as nat);
    let rest = tenths(rate) + " MB/s"@ + errors_text(w.errors as nat);
    let start = "disk p50 "@ + latency_text(w.p50_ns as nat) + " | p99 "@ + latency_text(
        w.p99_ns as nat,
    ) + " | max "@ + latency_text(w.max_ns as nat) + " | "@ + grouped(decimal(reqs)) + " reqs | "@
        + grouped(decimal(iops)) + " IOPS | "@;
    assert(stats_text(w) =~= start + rest);
}

proof fn lemma_summary_fields(
    p50: Seq<char>,
    p99: Seq<char>,
    max: Seq<char>,
    reqs: Seq<char>,
    iops: Seq<char>,
    rest: Seq<char>,
)
    requires
        free_of(p50, '|'),
        free_of(p99, '|'),
        free_of(max, '|'),
        free_of(reqs, '|'),
        free_of(iops, '|'),
    ensures
        fields(
            "disk p50 "@ + p50 + " | p99 "@ + p99 + " | max "@ + max + " | "@ + reqs + " reqs | "@
                + iops + " IOPS | "@ + rest,
            '|',
        ) == seq![
            "disk p50 "@ + p50 + seq![' '],
            " p99 "@ + p99 + seq![' '],
            " max "@ + max + seq![' '],
            seq![' '] + reqs + " reqs "@,
            seq![' '] + iops + " IOPS "@,
        ] + fields(seq![' '] + rest, '|'),
{
    reveal_strlit("disk p50 ");
    reveal_strlit(" | p99 ");
    reveal_strlit(" | max ");
    reveal_strlit(" p99 ");
    reveal_strlit(" max ");
    reveal_strlit(" | ");
    reveal_strlit(" reqs | ");
    reveal_strlit(" reqs ");
    reveal_strlit(" IOPS | ");
    reveal_strlit(" IOPS ");
    let bar = seq!['|'];
    let space = seq![' '];
    let a = "disk p50 "@ + p50 + space;
    let b = " p99 "@ + p99 + space;
    let c = " max "@ + max + space;
    let d = space + reqs + " reqs "@;
    let e = space + iops + " IOPS "@;
    let tail = space + rest;
    let te = e + bar + tail;
    let td = d + bar + te;
    let tc = c + bar + td;
    let tb = b + bar + tc;
    lemma_first_field(e, '|', tail);
    lemma_first_field(d, '|', te);
    lemma_first_field(c, '|', td);
    lemma_first_field(b, '|', tc);
    lemma_first_field(a, '|', tb);
    assert(" | p99 "@ =~= space + bar + " p99 "@);
    assert(" | max "@ =~= space + bar + " max "@);
    assert(" | "@ =~= space + bar + space);
    assert(" reqs | "@ =~= " reqs "@ + bar + space);
    assert(" IOPS | "@ =~= " IOPS "@ + bar + space);
    assert("disk p50 "@ + p50 + " | p99 "@ + p99 + " | max "@ + max + " | "@ + reqs + " reqs | "@
        + iops + " IOPS | "@ + rest =~= a + bar + tb);
}

proof fn lemma_summary_tail(rate: Seq<char>, failed: Seq<char>, errors: nat)
    requires
        free_of(rate, '|'),
        free_of(failed, '|'),
        failed == grouped(decimal(errors)),
    ensures
        errors == 0 ==> fields(seq![' '] + (rate + " MB/s"@ + errors_text(errors)), '|') == seq![
            seq![' '] + rate + " MB/s"@,
        ],
        errors > 0 ==> fields(seq![' '] + (rate + " MB/s"@ + errors_text(errors)), '|') == seq![
            seq![' '] + rate + " MB/s"@ + seq![' '],
            seq![' '] + failed + " errors"@,
        ],
{
    reveal_strlit(" MB/s");
    reveal_strlit(" | ");
    reveal_strlit(" errors");
    reveal_strlit("");
    let bar = seq!['|'];
    let space = seq![' '];
    let f = space + rate + " MB/s"@;
    let g = space + failed + " errors"@;
    lemma_only_field(f, '|');
    lemma_only_field(g, '|');
    lemma_first_field(f + space, '|', g);
    assert(" | "@ =~= space + bar + space);
    let text = space + (rate + " MB/s"@ + errors_text(errors));
    if errors == 0 {
        assert(text =~= f);
    } else {
        assert(text =~= f + space + bar + g);
    }
}

} // verus!
