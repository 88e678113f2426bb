//! A validator sample as a status line.

use vstd::prelude::*;
use crate::rpc::{Sample, SampleView, ValidatorSample};
use crate::text::{
    decimal, ends_with, fields, free_of, grouped, lemma_first_field,
    lemma_numbers_hold_no_separator, lemma_only_field, push_commas, push_decimal, push_signed,
    signed_decimal,
};

verus! {

/// A vote lag above this many slots is falling behind.
pub const LAG_LIMIT: i64 = 150;

/// The verdict on a sample of a reachable validator.
#[derive(Debug, Clone, Copy, PartialEq, Eq, Structural)]
pub enum State {
    Healthy,
    Lagging,
    Delinquent,
    Unhealthy,
}

/// The most severe thing that holds of a sample.
pub open spec fn state_of(s: ValidatorSample) -> State {
    if !s.healthy {
        State::Unhealthy
    } else if s.delinquent {
        State::Delinquent
    } else if s.vote_lag > LAG_LIMIT {
        State::Lagging
    } else {
        State::Healthy
    }
}

/// A state as status lines show it.
pub open spec fn label_of(state: State) -> Seq<char> {
    match state {
        State::Healthy => "OK"@,
        State::Lagging => "LAGGING"@,
        State::Delinquent => "DELINQUENT"@,
        State::Unhealthy => "UNHEALTHY"@,
    }
}

/// A state as JSON output shows it: the label in lower case.
pub open spec fn json_label_of(state: State) -> Seq<char> {
    match state {
        State::Healthy => "ok"@,
        State::Lagging => "lagging"@,
        State::Delinquent => "delinquent"@,
        State::Unhealthy => "unhealthy"@,
    }
}

/// The full status line of a reachable validator.
pub open spec fn up_text(s: ValidatorSample) -> Seq<char> {
    "epoch "@ + decimal(s.epoch as nat) + " | slot "@ + grouped(decimal(s.network_slot as nat))
        + " | last vote "@ + grouped(decimal(s.my_last_vote as nat)) + " | lag "@ + signed_decimal(
        s.vote_lag as int,
    ) + " | credits "@ + grouped(decimal(s.credits as nat)) + " | "@ + label_of(state_of(s))
}

/// The line of a validator that cannot be reached.
pub open spec fn down_text(reason: Seq<char>) -> Seq<char> {
    "DOWN | "@ + reason
}

/// The status line of a sample.
pub open spec fn status_text(sample: SampleView) -> Seq<char> {
    match sample {
        SampleView::Up(s) => up_text(s),
        SampleView::Down(reason) => down_text(reason),
    }
}

/// The short form of a sample, for the validator's half of a combined line.
pub open spec fn compact_text(sample: SampleView) -> Seq<char> {
    match sample {
        SampleView::Up(s) => "slot "@ + grouped(decimal(s.network_slot as nat)) + " | lag "@
            + signed_decimal(s.vote_lag as int) + " | credits "@ + grouped(
            decimal(s.credits as nat),
        ) + " | "@ + label_of(state_of(s)),
        SampleView::Down(reason) => down_text(reason),
    }
}

/// The most severe thing that holds of a sample.
pub fn state(s: &ValidatorSample) -> (r: State)
    ensures
        r == state_of(*s),
{
    if !s.healthy {
        State::Unhealthy
    } else if s.delinquent {
        State::Delinquent
    } else if s.vote_lag > LAG_LIMIT {
        State::Lagging
    } else {
        State::Healthy
    }
}

impl State {
    /// The word that status lines show.
    pub fn label(self) -> (r: &'static str)
        ensures
            r@ == label_of(self),
    {
        match self {
            State::Healthy => "OK",
            State::Lagging => "LAGGING",
            State::Delinquent => "DELINQUENT",
            State::Unhealthy => "UNHEALTHY",
        }
    }

    /// The word that JSON output shows.
    pub fn json_label(self) -> (r: &'static str)
        ensures
            r@ == json_label_of(self),
    {
        match self {
            State::Healthy => "ok",
            State::Lagging => "lagging",
            State::Delinquent => "delinquent",
            State::Unhealthy => "unhealthy",
        }
    }
}

/// The status line of a reachable validator, e.g.
/// `epoch 0 | slot 1,084 | last vote 1,083 | lag 1 | credits 4,201 | OK`.
pub fn up_line(s: &ValidatorSample) -> (r: String)
    ensures
        r@ == up_text(*s),
{
    let mut out = String::from_str("epoch ");
    push_decimal(&mut out, s.epoch);
    out.append(" | slot ");
    push_commas(&mut out, s.network_slot);
    out.append(" | last vote ");
    push_commas(&mut out, s.my_last_vote);
    out.append(" | lag ");
    push_signed(&mut out, s.vote_lag);
    out.append(" | credits ");
    push_commas(&mut out, s.credits);
    out.append(" | ");
    out.append(state(s).label());
    out
}

fn down_line(reason: &str) -> (r: String)
    ensures
        r@ == down_text(reason@),
{
    let mut out = String::from_str("DOWN | ");
    out.append(reason);
    out
}

/// Formats one poll as a single status line, or `DOWN | ` and the reason.
pub fn status_line(sample: &Sample) -> (r: String)
    ensures
        r@ == status_text(sample@),
{
    match sample {
        Sample::Up(s) => up_line(s),
        Sample::Down { reason } => down_line(reason.as_str()),
    }
}

/// The short form of a sample, e.g. `slot 1,459 | lag 1 | credits 22,781 | OK`.
pub fn compact(sample: &Sample) -> (r: String)
    ensures
        r@ == compact_text(sample@),
{
    match sample {
        Sample::Up(s) => {
            let mut out = String::from_str("slot ");
            push_commas(&mut out, s.network_slot);
            out.append(" | lag ");
            push_signed(&mut out, s.vote_lag);
            out.append(" | credits ");
            push_commas(&mut out, s.credits);
            out.append(" | ");
            out.append(state(s).label());
            out
        },
        Sample::Down { reason } => down_line(reason.as_str()),
    }
}

/// An upper case ASCII letter in lower case; any other character as it is.
pub open spec fn ascii_lower(c: char) -> char {
    if 'A' <= c <= 'Z' {
        (c as nat + 32) as char
    } else {
        c
    }
}

/// The word in JSON output is the word of the status line in lower case.
pub proof fn law_json_label_is_label_in_lower_case(state: State)
    ensures
        json_label_of(state) == label_of(state).map_values(|c: char| ascii_lower(c)),
{
    reveal_strlit("OK");
    reveal_strlit("ok");
    reveal_strlit("LAGGING");
    reveal_strlit("lagging");
    reveal_strlit("DELINQUENT");
    reveal_strlit("delinquent");
    reveal_strlit("UNHEALTHY");
    reveal_strlit("unhealthy");
    assert(json_label_of(state) =~= label_of(state).map_values(|c: char| ascii_lower(c)));
}

/// A sample is OK exactly when the validator is healthy, not delinquent and no
/// more than `LAG_LIMIT` slots behind.
pub proof fn law_ok_means_nothing_is_wrong(s: ValidatorSample)
    ensures
        state_of(s) == State::Healthy <==> s.healthy && !s.delinquent && s.vote_lag <= LAG_LIMIT,
{
}

/// The word of a sample is the gravest that holds: `UNHEALTHY` before
/// `DELINQUENT` before `LAGGING`, which is more than 150 slots behind, and `OK`
/// only where none of them holds.
pub proof fn law_gravest_word_wins(s: ValidatorSample)
    ensures
        label_of(state_of(s)) == "UNHEALTHY"@ <==> !s.healthy,
        label_of(state_of(s)) == "DELINQUENT"@ <==> s.healthy && s.delinquent,
        label_of(state_of(s)) == "LAGGING"@ <==> s.healthy && !s.delinquent && s.vote_lag > 150,
        label_of(state_of(s)) == "OK"@ <==> s.healthy && !s.delinquent && s.vote_lag <= 150,
{
    lemma_labels_differ();
}

proof fn lemma_labels_differ()
    ensures
        "OK"@.len() == 2,
        "OK"@[0] == 'O',
        "OK"@[1] == 'K',
        "LAGGING"@.len() == 7,
        "LAGGING"@.last() == 'G',
        "DELINQUENT"@.len() == 10,
        "DELINQUENT"@.last() == 'T',
        "UNHEALTHY"@.len() == 9,
        "UNHEALTHY"@.last() == 'Y',
        free_of("OK"@, '|'),
        free_of("LAGGING"@, '|'),
        free_of("DELINQUENT"@, '|'),
        free_of("UNHEALTHY"@, '|'),
{
    reveal_strlit("OK");
    reveal_strlit("LAGGING");
    reveal_strlit("DELINQUENT");
    reveal_strlit("UNHEALTHY");
}

proof fn lemma_figures_hold_no_bar(s: ValidatorSample)
    ensures
        free_of(decimal(s.epoch as nat), '|'),
        free_of(grouped(decimal(s.network_slot as nat)), '|'),
        free_of(grouped(decimal(s.my_last_vote as nat)), '|'),
        free_of(signed_decimal(s.vote_lag as int), '|'),
        free_of(grouped(decimal(s.credits as nat)), '|'),
        free_of(label_of(state_of(s)), '|'),
{
    lemma_numbers_hold_no_separator(s.epoch as nat, '|');
    lemma_numbers_hold_no_separator(s.network_slot as nat, '|');
    lemma_numbers_hold_no_separator(s.my_last_vote as nat, '|');
    lemma_numbers_hold_no_separator(s.credits as nat, '|');
    let lag: nat = if s.vote_lag < 0 {
        (-s.vote_lag) as nat
    } else {
        s.vote_lag as nat
    };
    lemma_numbers_hold_no_separator(lag, '|');
    lemma_labels_differ();
}

/// The fields of the full status line are the epoch, the slot, the last vote,
/// the lag, the credits and the word.
pub proof fn law_status_line_has_its_fields(s: ValidatorSample)
    ensures
        fields(status_text(SampleView::Up(s)), '|') == seq![
            "epoch "@ + decimal(s.epoch as nat) + seq![' '],
            " slot "@ + grouped(decimal(s.network_slot as nat)) + seq![' '],
            " last vote "@ + grouped(decimal(s.my_last_vote as nat)) + seq![' '],
            " lag "@ + signed_decimal(s.vote_lag as int) + seq![' '],
            " credits "@ + grouped(decimal(s.credits as nat)) + seq![' '],
            seq![' '] + label_of(state_of(s)),
        ],
{
    lemma_figures_hold_no_bar(s);
    let epoch = decimal(s.epoch as nat);
    let slot = grouped(decimal(s.network_slot as nat));
    let last_vote = grouped(decimal(s.my_last_vote as nat));
    let lag = signed_decimal(s.vote_lag as int);
    let credits = grouped(decimal(s.credits as nat));
    let word = label_of(state_of(s));
    let head = "epoch "@ + epoch + " | slot "@ + slot + " | last vote "@ + last_vote;
    let tail = " | lag "@ + lag + " | credits "@ + credits + " | "@ + word;
    lemma_status_head(epoch, slot, last_vote, tail);
    lemma_status_tail(last_vote, lag, credits, word);
    assert(up_text(s) =~= head + tail);
}

proof fn lemma_status_head(
    epoch: Seq<char>,
    slot: Seq<char>,
    last_vote: Seq<char>,
    tail: Seq<char>,
)
    requires
        free_of(epoch, '|'),
        free_of(slot, '|'),
    ensures
        fields("epoch "@ + epoch + " | slot "@ + slot + " | last vote "@ + last_vote + tail, '|')
            == seq!["epoch "@ + epoch + seq![' '], " slot "@ + slot + seq![' ']] + fields(
            " last vote "@ + last_vote + tail,
            '|',
        ),
{
    reveal_strlit("epoch ");
    reveal_strlit(" | slot ");
    reveal_strlit(" slot ");
    reveal_strlit(" | last vote ");
    reveal_strlit(" last vote ");
    let bar = seq!['|'];
    let space = seq![' '];
    let a = "epoch "@ + epoch + space;
    let b = " slot "@ + slot + space;
    let rest = " last vote "@ + last_vote + tail;
    lemma_first_field(b, '|', rest);
    lemma_first_field(a, '|', b + bar + rest);
    assert(" | slot "@ =~= space + bar + " slot "@);
    assert(" | last vote "@ =~= space + bar + " last vote "@);
    assert("epoch "@ + epoch + " | slot "@ + slot + " | last vote "@ + last_vote + tail =~= a + bar
        + (b + bar + rest));
    assert(seq![a] + (seq![b] + fields(rest, '|')) =~= seq![a, b] + fields(rest, '|'));
}

proof fn lemma_status_tail(
    last_vote: Seq<char>,
    lag: Seq<char>,
    credits: Seq<char>,
    word: Seq<char>,
)
    requires
        free_of(last_vote, '|'),
        free_of(lag, '|'),
        free_of(credits, '|'),
        free_of(word, '|'),
    ensures
        fields(
            " last vote "@ + last_vote + (" | lag "@ + lag + " | credits "@ + credits + " | "@
                + word),
            '|',
        ) == seq![
            " last vote "@ + last_vote + seq![' '],
            " lag "@ + lag + seq![' '],
            " credits "@ + credits + seq![' '],
            seq![' '] + word,
        ],
{
    reveal_strlit(" last vote ");
    reveal_strlit(" | lag ");
    reveal_strlit(" lag ");
    reveal_strlit(" | credits ");
    reveal_strlit(" credits ");
    reveal_strlit(" | ");
    let bar = seq!['|'];
    let space = seq![' '];
    let c = " last vote "@ + last_vote + space;
    let d = " lag "@ + lag + space;
    let e = " credits "@ + credits + space;
    let f = space + word;
    let te = e + bar + f;
    let td = d + bar + te;
    lemma_only_field(f, '|');
    lemma_first_field(e, '|', f);
    lemma_first_field(d, '|', te);
    lemma_first_field(c, '|', td);
    assert(" | lag "@ =~= space + bar + " lag "@);
    assert(" | credits "@ =~= space + bar + " credits "@);
    assert(" | "@ =~= space + bar + space);
    assert(" last vote "@ + last_vote + (" | lag "@ + lag + " | credits "@ + credits + " | "@ + word)
        =~= c + bar + td);
}

/// The short form shows the slot, and then the last three fields of the full
/// status line, the word among them. Of a validator that cannot be reached the
/// two are the same.
pub proof fn law_short_form_agrees_with_status_line(s: ValidatorSample, reason: Seq<char>)
    ensures
        ({
            let short = fields(compact_text(SampleView::Up(s)), '|');
            let full = fields(status_text(SampleView::Up(s)), '|');
            &&& short.len() == 4
            &&& full.len() == 6
            &&& seq![' '] + short[0] == full[1]
            &&& short.skip(1) == full.skip(3)
            &&& short.last() == full.last()
        }),
        compact_text(SampleView::Down(reason)) == status_text(SampleView::Down(reason)),
{
    law_status_line_has_its_fields(s);
    reveal_strlit("slot ");
    reveal_strlit(" slot ");
    reveal_strlit(" | lag ");
    reveal_strlit(" lag ");
    reveal_strlit(" | credits ");
    reveal_strlit(" credits ");
    reveal_strlit(" | ");
    lemma_figures_hold_no_bar(s);
    let bar = seq!['|'];
    let space = seq![' '];
    let b = "slot "@ + grouped(decimal(s.network_slot as nat)) + space;
    let d = " lag "@ + signed_decimal(s.vote_lag as int) + space;
    let e = " credits "@ + grouped(decimal(s.credits as nat)) + space;
    let f = space + label_of(state_of(s));
    let te = e + bar + f;
    let td = d + bar + te;
    lemma_only_field(f, '|');
    lemma_first_field(e, '|', f);
    lemma_first_field(d, '|', te);
    lemma_first_field(b, '|', td);
    assert(" slot "@ =~= space + "slot "@);
    assert(" | lag "@ =~= space + bar + " lag "@);
    assert(" | credits "@ =~= space + bar + " credits "@);
    assert(" | "@ =~= space + bar + space);
    assert(compact_text(SampleView::Up(s)) =~= b + bar + td);
    let short = fields(compact_text(SampleView::Up(s)), '|');
    let full = fields(status_text(SampleView::Up(s)), '|');
    assert(short =~= seq![b, d, e, f]);
    assert(space + short[0] =~= full[1]);
    assert(short.skip(1) =~= full.skip(3));
}

/// Both forms of a reachable validator's line end in `| OK` if and only if it is
/// healthy, not delinquent and at most 150 slots behind.
pub proof fn law_line_ends_in_ok_when_nothing_is_wrong(s: ValidatorSample)
    ensures
        ends_with(compact_text(SampleView::Up(s)), "| OK"@) <==> s.healthy && !s.delinquent
            && s.vote_lag <= 150,
        ends_with(status_text(SampleView::Up(s)), "| OK"@) <==> s.healthy && !s.delinquent
            && s.vote_lag <= 150,
{
    lemma_word_ends_line(s, compact_text(SampleView::Up(s)));
    lemma_word_ends_line(s, status_text(SampleView::Up(s)));
}

proof fn lemma_word_ends_line(s: ValidatorSample, line: Seq<char>)
    requires
        line == compact_text(SampleView::Up(s)) || line == status_text(SampleView::Up(s)),
    ensures
        ends_with(line, "| OK"@) <==> s.healthy && !s.delinquent && s.vote_lag <= 150,
{
    lemma_labels_differ();
    law_gravest_word_wins(s);
    reveal_strlit(" | ");
    reveal_strlit("| OK");
    let word = label_of(state_of(s));
    let n = line.len() as int;
    assert(line.last() == word.last());
    assert(line.skip(n - word.len()) =~= word);
    if word == "OK"@ {
        assert(line[n - 1] == 'K' && line[n - 2] == 'O' && line[n - 3] == ' ' && line[n - 4]
            == '|');
        assert(line.skip(n - 4) =~= "| OK"@);
    } else if ends_with(line, "| OK"@) {
        assert(line.skip(n - 4)[3] == 'K');
    }
}

/// The line of a validator that cannot be reached is `DOWN | ` and the reason,
/// whole.
pub proof fn law_outage_line_ends_in_the_reason(reason: Seq<char>)
    ensures
        status_text(SampleView::Down(reason)).take(7) == "DOWN | "@,
        status_text(SampleView::Down(reason)).skip(7) == reason,
{
    reveal_strlit("DOWN | ");
    let line = status_text(SampleView::Down(reason));
    assert(line.take(7) =~= "DOWN | "@);
    assert(line.skip(7) =~= reason);
}

} // verus!
