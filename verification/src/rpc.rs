//! The validator-layer signal: what one poll asks of the validator's JSON-RPC
//! endpoint and how the three replies become one sample.
//!
//! A poll is a short conversation. `RpcPoller::request` gives the body of the
//! next call, the caller makes it, and `RpcPoller::advance` takes what came
//! back and says what to do next.

use vstd::prelude::*;
use crate::json::{
    array_value, element, equals_text, get, insert, json_of, json_text, member, new_members,
    no_members, object_value, text_value, uint_value, value_text, JsonTree,
};
use crate::text::{lemma_front, starts_with};

verus! {

/// One poll's worth of validator-layer signal.
#[derive(Debug, Clone, Copy, PartialEq, Eq, Structural)]
pub struct ValidatorSample {
    pub epoch: u64,
    /// Current tip.
    pub network_slot: u64,
    /// My vote account's `lastVote` slot.
    pub my_last_vote: u64,
    /// Network slot minus last vote: the fast signal.
    pub vote_lag: i64,
    /// My credits this epoch.
    pub credits: u64,
    /// Am I in the delinquent set.
    pub delinquent: bool,
    /// `getHealth` answered "ok".
    pub healthy: bool,
}

/// What one poll tick yields. An unreachable RPC is not an error to hide: it is
/// the strongest validator-layer signal there is, so it is a sample on the same
/// timeline.
#[derive(Debug, Clone)]
pub enum Sample {
    Up(ValidatorSample),
    Down { reason: String },
}

/// A `Sample` with its text as a sequence of characters.
pub enum SampleView {
    Up(ValidatorSample),
    Down(Seq<char>),
}

impl View for Sample {
    type V = SampleView;

    open spec fn view(&self) -> SampleView {
        match *self {
            Sample::Up(s) => SampleView::Up(s),
            Sample::Down { reason } => SampleView::Down(reason@),
        }
    }
}

/// What `getEpochInfo` told: a field is `None` where the reply has no such
/// unsigned integer.
#[derive(Debug, Clone, Copy, PartialEq, Eq)]
pub struct EpochInfo {
    pub epoch: Option<u64>,
    pub absolute_slot: Option<u64>,
}

/// One entry of `getVoteAccounts`.
#[derive(Debug)]
pub struct VoteAccount {
    pub vote_pubkey: Option<String>,
    pub last_vote: Option<u64>,
    /// Cumulative and previous cumulative credits of the last entry of
    /// `epochCredits`.
    pub last_credits: Option<(u64, u64)>,
}

/// A `VoteAccount` with its text as a sequence of characters.
pub struct AccountView {
    pub vote_pubkey: Option<Seq<char>>,
    pub last_vote: Option<u64>,
    pub last_credits: Option<(u64, u64)>,
}

/// The two sets of `getVoteAccounts`; a set is `None` where the reply holds no
/// such array.
#[derive(Debug)]
pub struct VoteAccounts {
    pub current: Option<Vec<VoteAccount>>,
    pub delinquent: Option<Vec<VoteAccount>>,
}

/// A `VoteAccounts` as a mathematical value.
pub struct AccountsView {
    pub current: Option<Seq<AccountView>>,
    pub delinquent: Option<Seq<AccountView>>,
}

/// The characters of an optional string.
pub open spec fn text_of(s: Option<String>) -> Option<Seq<char>> {
    match s {
        Some(s) => Some(s@),
        None => None,
    }
}

/// The views of an optional list of accounts.
pub open spec fn set_of(set: Option<Vec<VoteAccount>>) -> Option<Seq<AccountView>> {
    match set {
        Some(v) => Some(v@.map_values(|a: VoteAccount| a@)),
        None => None,
    }
}

impl View for VoteAccount {
    type V = AccountView;

    open spec fn view(&self) -> AccountView {
        AccountView {
            vote_pubkey: text_of(self.vote_pubkey),
            last_vote: self.last_vote,
            last_credits: self.last_credits,
        }
    }
}

impl View for VoteAccounts {
    type V = AccountsView;

    open spec fn view(&self) -> AccountsView {
        AccountsView { current: set_of(self.current), delinquent: set_of(self.delinquent) }
    }
}

/// What a `getEpochInfo` result says.
pub open spec fn epoch_info_of(t: JsonTree) -> EpochInfo {
    EpochInfo {
        epoch: t.member("epoch"@).as_uint(),
        absolute_slot: t.member("absoluteSlot"@).as_uint(),
    }
}

/// The last entry of an `epochCredits` array, `[epoch, cumulative, previous]`,
/// where it is there and holds both totals.
pub open spec fn last_credits_of(t: JsonTree) -> Option<(u64, u64)> {
    match t.as_items() {
        Some(entries) => if entries.len() > 0 {
            match (entries.last().element(1).as_uint(), entries.last().element(2).as_uint()) {
                (Some(cumulative), Some(previous)) => Some((cumulative, previous)),
                _ => None,
            }
        } else {
            None
        },
        None => None,
    }
}

/// What one vote account entry says.
pub open spec fn account_of(t: JsonTree) -> AccountView {
    AccountView {
        vote_pubkey: t.member("votePubkey"@).as_text(),
        last_vote: t.member("lastVote"@).as_uint(),
        last_credits: last_credits_of(t.member("epochCredits"@)),
    }
}

/// What one set of vote accounts says.
pub open spec fn account_set_of(t: JsonTree) -> Option<Seq<AccountView>> {
    match t.as_items() {
        Some(items) => Some(items.map_values(|item: JsonTree| account_of(item))),
        None => None,
    }
}

/// What a `getVoteAccounts` result says.
pub open spec fn vote_accounts_of(t: JsonTree) -> AccountsView {
    AccountsView {
        current: account_set_of(t.member("current"@)),
        delinquent: account_set_of(t.member("delinquent"@)),
    }
}

/// The first account under the key.
pub open spec fn first_under(set: Seq<AccountView>, pk: Seq<char>) -> Option<AccountView>
    decreases set.len(),
{
    if set.len() == 0 {
        None
    } else if set[0].vote_pubkey == Some(pk) {
        Some(set[0])
    } else {
        first_under(set.drop_first(), pk)
    }
}

/// The account to report in one set: the first under the key, or simply the
/// first where no key is known.
pub open spec fn pick(set: Option<Seq<AccountView>>, pk: Option<Seq<char>>) -> Option<AccountView> {
    match (set, pk) {
        (Some(accounts), Some(pk)) => first_under(accounts, pk),
        (Some(accounts), None) => if accounts.len() > 0 {
            Some(accounts[0])
        } else {
            None
        },
        (None, _) => None,
    }
}

/// The account to report and whether it is delinquent: the current set is
/// searched first, then the delinquent one.
pub open spec fn pick_account(accounts: AccountsView, pk: Option<Seq<char>>) -> Option<
    (AccountView, bool),
> {
    match pick(accounts.current, pk) {
        Some(a) => Some((a, false)),
        None => match pick(accounts.delinquent, pk) {
            Some(a) => Some((a, true)),
            None => None,
        },
    }
}

/// An integer brought into the range of `i64` by a multiple of 2^64, for
/// integers less than 2^64 away from zero.
pub open spec fn wrapped_i64(d: int) -> int {
    if d > i64::MAX {
        d - 0x1_0000_0000_0000_0000
    } else if d < i64::MIN {
        d + 0x1_0000_0000_0000_0000
    } else {
        d
    }
}

/// This epoch's credits: cumulative minus previous, never below zero, and zero
/// while there is no entry.
pub open spec fn credits_of(last: Option<(u64, u64)>) -> u64 {
    match last {
        Some((cumulative, previous)) => if cumulative >= previous {
            (cumulative - previous) as u64
        } else {
            0
        },
        None => 0,
    }
}

/// The sample that the three replies make, or why there is none.
pub open spec fn sample_of(
    healthy: bool,
    epoch: u64,
    network_slot: u64,
    accounts: AccountsView,
    pk: Option<Seq<char>>,
) -> SampleView {
    match pick_account(accounts, pk) {
        None => SampleView::Down("vote account not found in getVoteAccounts"@),
        Some((account, delinquent)) => match account.last_vote {
            None => SampleView::Down("lastVote"@),
            Some(my_last_vote) => SampleView::Up(
                ValidatorSample {
                    epoch,
                    network_slot,
                    my_last_vote,
                    vote_lag: wrapped_i64(network_slot - my_last_vote) as i64,
                    credits: credits_of(account.last_credits),
                    delinquent,
                    healthy,
                },
            ),
        },
    }
}

/// The key that later polls ask for: the one already known, else the one of the
/// account that was found.
pub open spec fn remembered(accounts: AccountsView, pk: Option<Seq<char>>) -> Option<Seq<char>> {
    match (pk, pick_account(accounts, pk)) {
        (None, Some((account, _))) => account.vote_pubkey,
        _ => pk,
    }
}

/// What came back from one call.
pub enum Outcome {
    /// A reply with a JSON body.
    Reply(serde_json::Value),
    /// The request did not go through; the text says why.
    RequestFailed(String),
    /// The reply's body was not JSON; the text says why.
    BadJson(String),
}

/// An `Outcome` as a mathematical value.
pub enum OutcomeView {
    Reply(JsonTree),
    RequestFailed(Seq<char>),
    BadJson(Seq<char>),
}

impl View for Outcome {
    type V = OutcomeView;

    open spec fn view(&self) -> OutcomeView {
        match *self {
            Outcome::Reply(v) => OutcomeView::Reply(json_of(v)),
            Outcome::RequestFailed(why) => OutcomeView::RequestFailed(why@),
            Outcome::BadJson(why) => OutcomeView::BadJson(why@),
        }
    }
}

/// The `result` field of a call's reply, or the reason why there is none.
pub open spec fn result_of(method: Seq<char>, outcome: OutcomeView) -> Result<JsonTree, Seq<char>> {
    match outcome {
        OutcomeView::RequestFailed(why) => Err(method + ": request failed: "@ + why),
        OutcomeView::BadJson(why) => Err(method + ": bad JSON: "@ + why),
        OutcomeView::Reply(reply) => if reply.has_member("error"@) {
            Err(method + ": rpc error: "@ + json_text(reply.member("error"@)))
        } else if reply.has_member("result"@) {
            Ok(reply.member("result"@))
        } else {
            Err(method + ": no result field"@)
        },
    }
}

/// Where a poll stands: the call that is under way, with what the earlier ones
/// told.
#[derive(Debug, Clone, Copy, PartialEq, Eq, Structural)]
pub enum Phase {
    Health,
    EpochInfo { healthy: bool },
    VoteAccounts { healthy: bool, epoch: u64, network_slot: u64 },
}

/// What to do after a reply.
pub enum Step {
    /// Make the call of this phase.
    Call(Phase),
    /// The poll is over.
    Done(Sample),
}

/// A `Step` as a mathematical value.
pub enum StepView {
    Call(Phase),
    Done(SampleView),
}

impl View for Step {
    type V = StepView;

    open spec fn view(&self) -> StepView {
        match *self {
            Step::Call(phase) => StepView::Call(phase),
            Step::Done(sample) => StepView::Done(sample@),
        }
    }
}

/// The RPC method of a phase.
pub open spec fn method_of(phase: Phase) -> Seq<char> {
    match phase {
        Phase::Health => "getHealth"@,
        Phase::EpochInfo { .. } => "getEpochInfo"@,
        Phase::VoteAccounts { .. } => "getVoteAccounts"@,
    }
}

/// The parameters of a call: vote accounts are filtered by the key once it is
/// known, the other calls take none.
pub open spec fn params_of(phase: Phase, pk: Option<Seq<char>>) -> JsonTree {
    match (phase, pk) {
        (Phase::VoteAccounts { .. }, Some(pk)) => JsonTree::Array(
            seq![JsonTree::Object(no_members().insert("votePubkey"@, JsonTree::Text(pk)))],
        ),
        _ => JsonTree::Array(seq![]),
    }
}

/// The JSON-RPC body of a call.
pub open spec fn request_of(phase: Phase, pk: Option<Seq<char>>) -> JsonTree {
    JsonTree::Object(
        no_members().insert("jsonrpc"@, JsonTree::Text("2.0"@)).insert("id"@, JsonTree::Int(1)).insert(
            "method"@,
            JsonTree::Text(method_of(phase)),
        ).insert("params"@, params_of(phase, pk)),
    )
}

/// What follows a reply.
pub open spec fn step_of(phase: Phase, outcome: OutcomeView, pk: Option<Seq<char>>) -> StepView {
    let result = result_of(method_of(phase), outcome);
    match phase {
        Phase::Health => StepView::Call(
            Phase::EpochInfo { healthy: result is Ok && result->Ok_0.as_text() == Some("ok"@) },
        ),
        Phase::EpochInfo { healthy } => match result {
            Err(reason) => StepView::Done(SampleView::Down(reason)),
            Ok(t) => match (epoch_info_of(t).epoch, epoch_info_of(t).absolute_slot) {
                (None, _) => StepView::Done(SampleView::Down("epoch"@)),
                (Some(_), None) => StepView::Done(SampleView::Down("absoluteSlot"@)),
                (Some(epoch), Some(network_slot)) => StepView::Call(
                    Phase::VoteAccounts { healthy, epoch, network_slot },
                ),
            },
        },
        Phase::VoteAccounts { healthy, epoch, network_slot } => match result {
            Err(reason) => StepView::Done(SampleView::Down(reason)),
            Ok(t) => StepView::Done(
                sample_of(healthy, epoch, network_slot, vote_accounts_of(t), pk),
            ),
        },
    }
}

/// The key after a reply.
pub open spec fn pubkey_after(
    phase: Phase,
    outcome: OutcomeView,
    pk: Option<Seq<char>>,
) -> Option<Seq<char>> {
    match (phase, result_of(method_of(phase), outcome)) {
        (Phase::VoteAccounts { .. }, Ok(t)) => remembered(vote_accounts_of(t), pk),
        _ => pk,
    }
}

fn concat3(a: &str, b: &str, c: &str) -> (r: String)
    ensures
        r@ == a@ + b@ + c@,
{
    let mut out = String::from_str(a);
    out.append(b);
    out.append(c);
    out
}

/// Reads a `getEpochInfo` result.
pub fn read_epoch_info(v: &serde_json::Value) -> (r: EpochInfo)
    ensures
        r == epoch_info_of(json_of(*v)),
{
    EpochInfo {
        epoch: member(v, "epoch").as_u64(),
        absolute_slot: member(v, "absoluteSlot").as_u64(),
    }
}

fn read_last_credits(v: &serde_json::Value) -> (r: Option<(u64, u64)>)
    ensures
        r == last_credits_of(json_of(*v)),
{
    match v.as_array() {
        None => None,
        Some(entries) => {
            if entries.len() == 0 {
                return None;
            }
            let last = &entries[entries.len() - 1];
            let cumulative = element(last, 1).as_u64();
            let previous = element(last, 2).as_u64();
            match (cumulative, previous) {
                (Some(c), Some(p)) => Some((c, p)),
                _ => None,
            }
        },
    }
}

/// Reads one entry of a `getVoteAccounts` result.
pub fn read_vote_account(v: &serde_json::Value) -> (r: VoteAccount)
    ensures
        r@ == account_of(json_of(*v)),
{
    let vote_pubkey = match member(v, "votePubkey").as_str() {
        Some(s) => Some(String::from_str(s)),
        None => None,
    };
    VoteAccount {
        vote_pubkey,
        last_vote: member(v, "lastVote").as_u64(),
        last_credits: read_last_credits(member(v, "epochCredits")),
    }
}

fn read_account_set(v: &serde_json::Value) -> (r: Option<Vec<VoteAccount>>)
    ensures
        set_of(r) == account_set_of(json_of(*v)),
{
    match v.as_array() {
        None => None,
        Some(items) => {
            let mut accounts: Vec<VoteAccount> = Vec::new();
            let mut i: usize = 0;
            while i < items.len()
                invariant
                    i <= items.len(),
                    accounts.len() == i,
                    forall|k: int| 0 <= k < i ==> #[trigger] accounts[k]@ == account_of(json_of(items[k])),
                decreases items.len() - i,
            {
                accounts.push(read_vote_account(&items[i]));
                i += 1;
            }
            assert(set_of(Some(accounts))->0 =~= account_set_of(json_of(*v))->0);
            Some(accounts)
        },
    }
}

/// Reads a `getVoteAccounts` result.
pub fn read_vote_accounts(v: &serde_json::Value) -> (r: VoteAccounts)
    ensures
        r@ == vote_accounts_of(json_of(*v)),
{
    VoteAccounts {
        current: read_account_set(member(v, "current")),
        delinquent: read_account_set(member(v, "delinquent")),
    }
}

/// The place of the first account under the key.
fn index_under(set: &Vec<VoteAccount>, pk: &String) -> (r: Option<usize>)
    ensures
        match r {
            Some(i) => i < set.len() && first_under(set@.map_values(|a: VoteAccount| a@), pk@)
                == Some(set[i as int]@),
            None => first_under(set@.map_values(|a: VoteAccount| a@), pk@) is None,
        },
{
    let ghost all = set@.map_values(|a: VoteAccount| a@);
    let mut i: usize = 0;
    assert(all.skip(0) =~= all);
    while i < set.len()
        invariant
            i <= set.len(),
            all == set@.map_values(|a: VoteAccount| a@),
            first_under(all, pk@) == first_under(all.skip(i as int), pk@),
        decreases set.len() - i,
    {
        assert(all.skip(i as int)[0] == set[i as int]@);
        assert(all.skip(i as int).drop_first() =~= all.skip(i + 1));
        match &set[i].vote_pubkey {
            Some(k) => {
                if *k == *pk {
                    return Some(i);
                }
            },
            None => {},
        }
        i += 1;
    }
    None
}

fn pick_in<'a>(set: &'a Option<Vec<VoteAccount>>, pk: &Option<String>) -> (r: Option<
    &'a VoteAccount,
>)
    ensures
        match r {
            Some(a) => pick(set_of(*set), text_of(*pk)) == Some(a@),
            None => pick(set_of(*set), text_of(*pk)) is None,
        },
{
    match set {
        None => None,
        Some(accounts) => match pk {
            Some(pk) => match index_under(accounts, pk) {
                Some(i) => Some(&accounts[i]),
                None => None,
            },
            None => if accounts.len() > 0 {
                Some(&accounts[0])
            } else {
                None
            },
        },
    }
}

/// The account to report and whether it is delinquent. The current set is
/// searched first, then the delinquent one: numbers are still wanted while the
/// validator is down.
pub fn find_account<'a>(accounts: &'a VoteAccounts, pk: &Option<String>) -> (r: Option<
    (&'a VoteAccount, bool),
>)
    ensures
        match r {
            Some((a, delinquent)) => pick_account(accounts@, text_of(*pk)) == Some(
                (a@, delinquent),
            ),
            None => pick_account(accounts@, text_of(*pk)) is None,
        },
{
    match pick_in(&accounts.current, pk) {
        Some(a) => Some((a, false)),
        None => match pick_in(&accounts.delinquent, pk) {
            Some(a) => Some((a, true)),
            None => None,
        },
    }
}

/// Network slot minus last vote, wrapping around where it leaves `i64`.
pub fn vote_lag(network_slot: u64, last_vote: u64) -> (r: i64)
    ensures
        r == wrapped_i64(network_slot - last_vote),
{
    let d: i128 = network_slot as i128 - last_vote as i128;
    if d > i64::MAX as i128 {
        (d - 0x1_0000_0000_0000_0000) as i64
    } else if d < i64::MIN as i128 {
        (d + 0x1_0000_0000_0000_0000) as i64
    } else {
        d as i64
    }
}

/// This epoch's credits from the last entry of `epochCredits`.
pub fn epoch_credits(last: Option<(u64, u64)>) -> (r: u64)
    ensures
        r == credits_of(last),
{
    match last {
        Some((cumulative, previous)) => if cumulative >= previous {
            cumulative - previous
        } else {
            0
        },
        None => 0,
    }
}

/// The sample that the replies make: `Down` where no vote account is found or
/// the account has no `lastVote`.
pub fn build_sample(
    healthy: bool,
    epoch: u64,
    network_slot: u64,
    accounts: &VoteAccounts,
    pk: &Option<String>,
) -> (r: Sample)
    ensures
        r@ == sample_of(healthy, epoch, network_slot, accounts@, text_of(*pk)),
{
    match find_account(accounts, pk) {
        None => Sample::Down {
            reason: String::from_str("vote account not found in getVoteAccounts"),
        },
        Some((account, delinquent)) => match account.last_vote {
            None => Sample::Down { reason: String::from_str("lastVote") },
            Some(my_last_vote) => Sample::Up(
                ValidatorSample {
                    epoch,
                    network_slot,
                    my_last_vote,
                    vote_lag: vote_lag(network_slot, my_last_vote),
                    credits: epoch_credits(account.last_credits),
                    delinquent,
                    healthy,
                },
            ),
        },
    }
}

/// The `result` field of a call's reply. A call that failed, a reply that is
/// not JSON, one with an `error` field and one without a `result` field are
/// errors, each with its reason.
pub fn call_result<'a>(method: &str, outcome: &'a Outcome) -> (r: Result<
    &'a serde_json::Value,
    String,
>)
    ensures
        match r {
            Ok(v) => result_of(method@, outcome@) == Ok::<JsonTree, Seq<char>>(json_of(*v)),
            Err(reason) => result_of(method@, outcome@) == Err::<JsonTree, Seq<char>>(reason@),
        },
{
    match outcome {
        Outcome::RequestFailed(why) => Err(concat3(method, ": request failed: ", why.as_str())),
        Outcome::BadJson(why) => Err(concat3(method, ": bad JSON: ", why.as_str())),
        Outcome::Reply(reply) => match get(reply, "error") {
            Some(error) => {
                let text = value_text(error);
                Err(concat3(method, ": rpc error: ", text.as_str()))
            },
            None => match get(reply, "result") {
                Some(result) => Ok(result),
                None => {
                    let mut reason = String::from_str(method);
                    reason.append(": no result field");
                    Err(reason)
                },
            },
        },
    }
}

/// The validator that is polled and the vote account that is tracked.
pub struct RpcPoller {
    url: String,
    /// The vote account's key. Without one the first poll discovers it: a test
    /// validator has a single built-in vote account.
    vote_pubkey: Option<String>,
}

impl RpcPoller {
    /// The endpoint.
    pub closed spec fn endpoint(self) -> Seq<char> {
        self.url@
    }

    /// The key of the tracked vote account, once it is known.
    pub closed spec fn pubkey(self) -> Option<Seq<char>> {
        text_of(self.vote_pubkey)
    }

    /// A poller for an endpoint, with no vote account known.
    pub fn new(url: String) -> (r: RpcPoller)
        ensures
            r.endpoint() == url@,
            r.pubkey() is None,
    {
        RpcPoller { url, vote_pubkey: None }
    }

    /// The same poller, tracking this vote account.
    pub fn with_vote_pubkey(self, pk: String) -> (r: RpcPoller)
        ensures
            r.endpoint() == self.endpoint(),
            r.pubkey() == Some(pk@),
    {
        RpcPoller { url: self.url, vote_pubkey: Some(pk) }
    }

    /// The endpoint that the calls go to.
    pub fn url(&self) -> (r: &str)
        ensures
            r@ == self.endpoint(),
    {
        self.url.as_str()
    }

    /// The key of the tracked vote account, once it is known.
    pub fn vote_pubkey(&self) -> (r: Option<&String>)
        ensures
            r is Some == self.pubkey() is Some,
            r is Some ==> self.pubkey() == Some(r->0@),
    {
        self.vote_pubkey.as_ref()
    }

    fn params(&self, phase: Phase) -> (r: serde_json::Value)
        ensures
            json_of(r) == params_of(phase, self.pubkey()),
    {
        let mut items: Vec<serde_json::Value> = Vec::new();
        match phase {
            Phase::VoteAccounts { .. } => match &self.vote_pubkey {
                Some(pk) => {
                    let mut filter = new_members();
                    insert(&mut filter, "votePubkey", text_value(pk.as_str()));
                    items.push(object_value(filter));
                },
                None => {},
            },
            _ => {},
        }
        let r = array_value(items);
        assert(json_of(r)->Array_0 =~= params_of(phase, self.pubkey())->Array_0);
        r
    }

    /// The JSON-RPC body of the call that a phase makes.
    pub fn request(&self, phase: Phase) -> (r: serde_json::Value)
        ensures
            json_of(r) == request_of(phase, self.pubkey()),
    {
        let mut body = new_members();
        insert(&mut body, "jsonrpc", text_value("2.0"));
        insert(&mut body, "id", uint_value(1));
        insert(&mut body, "method", text_value(method(phase)));
        insert(&mut body, "params", self.params(phase));
        object_value(body)
    }

    /// Takes what a call brought back and says what follows. A poll starts with
    /// `Phase::Health` and never fails: trouble becomes a `Down` sample. An
    /// unhealthy answer to `getHealth` is part of the sample, not trouble.
    pub fn advance(&mut self, phase: Phase, outcome: &Outcome) -> (r: Step)
        ensures
            r@ == step_of(phase, outcome@, old(self).pubkey()),
            final(self).pubkey() == pubkey_after(phase, outcome@, old(self).pubkey()),
            final(self).endpoint() == old(self).endpoint(),
    {
        let result = call_result(method(phase), outcome);
        match phase {
            Phase::Health => {
                let healthy = match result {
                    Ok(v) => equals_text(v, "ok"),
                    Err(_) => false,
                };
                Step::Call(Phase::EpochInfo { healthy })
            },
            Phase::EpochInfo { healthy } => match result {
                Err(reason) => Step::Done(Sample::Down { reason }),
                Ok(v) => {
                    let info = read_epoch_info(v);
                    match (info.epoch, info.absolute_slot) {
                        (None, _) => Step::Done(Sample::Down { reason: String::from_str("epoch") }),
                        (Some(_), None) => Step::Done(
                            Sample::Down { reason: String::from_str("absoluteSlot") },
                        ),
                        (Some(epoch), Some(network_slot)) => Step::Call(
                            Phase::VoteAccounts { healthy, epoch, network_slot },
                        ),
                    }
                },
            },
            Phase::VoteAccounts { healthy, epoch, network_slot } => match result {
                Err(reason) => Step::Done(Sample::Down { reason }),
                Ok(v) => {
                    let accounts = read_vote_accounts(v);
                    let sample = build_sample(
                        healthy,
                        epoch,
                        network_slot,
                        &accounts,
                        &self.vote_pubkey,
                    );
                    self.remember(&accounts);
                    Step::Done(sample)
                },
            },
        }
    }

    /// Remembers the discovered key so that later polls filter on the server.
    fn remember(&mut self, accounts: &VoteAccounts)
        ensures
            final(self).pubkey() == remembered(accounts@, old(self).pubkey()),
            final(self).endpoint() == old(self).endpoint(),
    {
        if self.vote_pubkey.is_none() {
            match find_account(accounts, &self.vote_pubkey) {
                Some((account, _)) => {
                    match &account.vote_pubkey {
                        Some(pk) => {
                            self.vote_pubkey = Some(pk.clone());
                        },
                        None => {},
                    }
                },
                None => {},
            }
        }
    }
}

/// The RPC method of a phase.
pub fn method(phase: Phase) -> (r: &'static str)
    ensures
        r@ == method_of(phase),
{
    match phase {
        Phase::Health => "getHealth",
        Phase::EpochInfo { .. } => "getEpochInfo",
        Phase::VoteAccounts { .. } => "getVoteAccounts",
    }
}

/// The sample of a whole poll: the replies to its three calls, the later ones
/// unused where the poll ends before them.
pub open spec fn poll_of(
    health: OutcomeView,
    epoch_info: OutcomeView,
    vote_accounts: OutcomeView,
    pk: Option<Seq<char>>,
) -> SampleView {
    let after_health = step_of(Phase::Health, health, pk)->Call_0;
    match step_of(after_health, epoch_info, pk) {
        StepView::Done(sample) => sample,
        StepView::Call(phase) => step_of(phase, vote_accounts, pk)->Done_0,
    }
}

/// A poll is at most three calls, in a fixed order: health, epoch info, vote
/// accounts. Only the last two can end it, and the last one always does.
pub proof fn law_poll_is_at_most_three_calls(
    phase: Phase,
    outcome: OutcomeView,
    pk: Option<Seq<char>>,
)
    ensures
        match phase {
            Phase::Health => step_of(phase, outcome, pk) matches StepView::Call(
                Phase::EpochInfo { .. },
            ),
            Phase::EpochInfo { .. } => step_of(phase, outcome, pk) matches StepView::Call(next)
                ==> next is VoteAccounts,
            Phase::VoteAccounts { .. } => step_of(phase, outcome, pk) is Done,
        },
{
}

/// Outages are data: where the request for epoch info or vote accounts does not
/// go through, the poll yields a `Down` sample with the reason.
pub proof fn law_outage_is_a_down_sample(
    health: OutcomeView,
    epoch_info: OutcomeView,
    vote_accounts: OutcomeView,
    pk: Option<Seq<char>>,
    why: Seq<char>,
)
    ensures
        epoch_info == OutcomeView::RequestFailed(why) ==> poll_of(
            health,
            epoch_info,
            vote_accounts,
            pk,
        ) == SampleView::Down("getEpochInfo"@ + ": request failed: "@ + why),
        vote_accounts == OutcomeView::RequestFailed(why) ==> poll_of(
            health,
            epoch_info,
            vote_accounts,
            pk,
        ) is Down,
{
}

/// A bad answer to `getHealth` never ends a poll: the other calls still decide,
/// and the answer only sets the health of the sample.
pub proof fn law_health_is_not_fatal(
    a: OutcomeView,
    b: OutcomeView,
    epoch_info: OutcomeView,
    vote_accounts: OutcomeView,
    pk: Option<Seq<char>>,
)
    ensures
        match (poll_of(a, epoch_info, vote_accounts, pk), poll_of(b, epoch_info, vote_accounts, pk)) {
            (SampleView::Up(s), SampleView::Up(t)) => s == (ValidatorSample {
                healthy: s.healthy,
                ..t
            }),
            (SampleView::Down(s), SampleView::Down(t)) => s == t,
            _ => false,
        },
{
}

/// The sample of a reachable validator reports the replies: the slot and the
/// last vote as told, and the lag as their difference wherever it fits.
pub proof fn law_up_sample_reports_the_replies(
    health: OutcomeView,
    epoch_info: OutcomeView,
    vote_accounts: OutcomeView,
    pk: Option<Seq<char>>,
)
    requires
        poll_of(health, epoch_info, vote_accounts, pk) is Up,
    ensures
        ({
            let s = poll_of(health, epoch_info, vote_accounts, pk)->Up_0;
            let info = epoch_info_of(result_of("getEpochInfo"@, epoch_info)->Ok_0);
            let accounts = vote_accounts_of(result_of("getVoteAccounts"@, vote_accounts)->Ok_0);
            let found = pick_account(accounts, pk);
            &&& info.epoch == Some(s.epoch)
            &&& info.absolute_slot == Some(s.network_slot)
            &&& found is Some
            &&& (found->0).0.last_vote == Some(s.my_last_vote)
            &&& s.delinquent == (found->0).1
            &&& i64::MIN <= s.network_slot - s.my_last_vote <= i64::MAX ==> s.vote_lag
                == s.network_slot - s.my_last_vote
        }),
{
}

/// A known vote account is tracked for good, whatever a reply holds.
pub proof fn law_known_pubkey_is_kept(phase: Phase, outcome: OutcomeView, pk: Option<Seq<char>>)
    requires
        pk is Some,
    ensures
        pubkey_after(phase, outcome, pk) == pk,
{
}

/// A discovered vote account is asked for by its key from then on.
pub proof fn law_discovered_pubkey_filters_later_polls(
    healthy: bool,
    epoch: u64,
    network_slot: u64,
    outcome: OutcomeView,
    later: Phase,
)
    requires
        later is VoteAccounts,
        pubkey_after(Phase::VoteAccounts { healthy, epoch, network_slot }, outcome, None) is Some,
    ensures
        ({
            let pk = pubkey_after(
                Phase::VoteAccounts { healthy, epoch, network_slot },
                outcome,
                None,
            );
            request_of(later, pk).member("params"@).element(0).member("votePubkey"@)
                == JsonTree::Text(pk->0)
        }),
{
}

/// An account in the current set is reported before one in the delinquent set,
/// and one that is only in the delinquent set is still reported.
pub proof fn law_current_set_comes_first(accounts: AccountsView, pk: Option<Seq<char>>)
    ensures
        pick(accounts.current, pk) is Some ==> pick_account(accounts, pk) == Some(
            (pick(accounts.current, pk)->0, false),
        ),
        pick(accounts.current, pk) is None && pick(accounts.delinquent, pk) is Some ==> pick_account(
            accounts,
            pk,
        ) == Some((pick(accounts.delinquent, pk)->0, true)),
{
}

/// The account that is reported for a known key carries that key.
pub proof fn law_reported_account_has_the_key(accounts: AccountsView, pk: Seq<char>)
    ensures
        pick_account(accounts, Some(pk)) matches Some((account, _)) ==> account.vote_pubkey == Some(
            pk,
        ),
{
    if accounts.current is Some {
        lemma_first_under_has_key(accounts.current->0, pk);
    }
    if accounts.delinquent is Some {
        lemma_first_under_has_key(accounts.delinquent->0, pk);
    }
}

proof fn lemma_first_under_has_key(set: Seq<AccountView>, pk: Seq<char>)
    ensures
        first_under(set, pk) matches Some(account) ==> account.vote_pubkey == Some(pk),
    decreases set.len(),
{
    if set.len() > 0 {
        lemma_first_under_has_key(set.drop_first(), pk);
    }
}

/// Every call is a JSON-RPC 2.0 request with its method and parameters under
/// the names that the protocol gives them.
pub proof fn law_request_is_json_rpc(phase: Phase, pk: Option<Seq<char>>)
    ensures
        ({
            let body = request_of(phase, pk);
            &&& body.member("jsonrpc"@) == JsonTree::Text("2.0"@)
            &&& body.member("id"@) == JsonTree::Int(1)
            &&& body.member("method"@) == JsonTree::Text(method_of(phase))
            &&& body.member("params"@) == params_of(phase, pk)
        }),
{
    reveal_strlit("jsonrpc");
    assert("jsonrpc"@.len() == 7);
    reveal_strlit("id");
    assert("id"@.len() == 2);
    reveal_strlit("method");
    assert("method"@.len() == 6);
    reveal_strlit("params");
    assert("params"@.len() == 6);
    assert("method"@[0] != "params"@[0]);
}

/// Whether a call brought back a reply without an error and with this result.
pub open spec fn brought(outcome: OutcomeView, result: JsonTree) -> bool {
    exists|reply: JsonTree|
        {
            &&& outcome == OutcomeView::Reply(reply)
            &&& !#[trigger] reply.has_member("error"@)
            &&& reply.has_member("result"@)
            &&& reply.member("result"@) == result
        }
}

/// Whether the account at a place is the one to report: the first under the key,
/// or the first of all where no key is known.
pub open spec fn reported_at(items: Seq<JsonTree>, pk: Option<Seq<char>>, i: int) -> bool {
    &&& 0 <= i < items.len()
    &&& match pk {
        Some(key) => {
            &&& items[i].member("votePubkey"@) == JsonTree::Text(key)
            &&& forall|j: int|
                0 <= j < i ==> #[trigger] items[j].member("votePubkey"@) != JsonTree::Text(key)
        },
        None => i == 0,
    }
}

/// Whether a set holds no account to report.
pub open spec fn holds_none(set: JsonTree, pk: Option<Seq<char>>) -> bool {
    forall|items: Seq<JsonTree>, i: int|
        set == JsonTree::Array(items) ==> !#[trigger] reported_at(items, pk, i)
}

/// Whether a set is where the account to report stands: the current one, or the
/// delinquent one where the current one holds none.
pub open spec fn stands_in(
    votes: JsonTree,
    pk: Option<Seq<char>>,
    items: Seq<JsonTree>,
    delinquent: bool,
) -> bool {
    if delinquent {
        &&& holds_none(votes.member("current"@), pk)
        &&& votes.member("delinquent"@) == JsonTree::Array(items)
    } else {
        votes.member("current"@) == JsonTree::Array(items)
    }
}

/// Where the replies tell the epoch, the slot, and the last vote of the account
/// to report, the poll yields those figures. The lag is the slot minus the last
/// vote, up to a multiple of 2^64. The validator is healthy if and only if the
/// first call brought back `ok`.
pub proof fn law_poll_yields_what_the_replies_tell(
    health: OutcomeView,
    epoch_info: OutcomeView,
    vote_accounts: OutcomeView,
    pk: Option<Seq<char>>,
    info: JsonTree,
    votes: JsonTree,
    items: Seq<JsonTree>,
    i: int,
    delinquent: bool,
    epoch: u64,
    slot: u64,
    last_vote: u64,
)
    requires
        brought(epoch_info, info),
        info.member("epoch"@) == JsonTree::Int(epoch as int),
        info.member("absoluteSlot"@) == JsonTree::Int(slot as int),
        brought(vote_accounts, votes),
        stands_in(votes, pk, items, delinquent),
        reported_at(items, pk, i),
        items[i].member("lastVote"@) == JsonTree::Int(last_vote as int),
    ensures
        ({
            let sample = poll_of(health, epoch_info, vote_accounts, pk);
            let s = sample->Up_0;
            &&& sample is Up
            &&& s.epoch == epoch
            &&& s.network_slot == slot
            &&& s.my_last_vote == last_vote
            &&& s.delinquent == delinquent
            &&& s.healthy <==> brought(health, JsonTree::Text("ok"@))
            &&& (slot - last_vote - s.vote_lag) % 0x1_0000_0000_0000_0000 == 0
        }),
{
    lemma_account_is_picked(votes, pk, items, i, delinquent);
    lemma_lag_is_congruent(slot - last_vote);
    let result = result_of("getHealth"@, health);
    if result is Ok && result->Ok_0.as_text() == Some("ok"@) {
        let reply = health->Reply_0;
        assert(!reply.has_member("error"@));
        assert(brought(health, JsonTree::Text("ok"@)));
    }
}

proof fn lemma_lag_is_congruent(d: int)
    requires
        -0x1_0000_0000_0000_0000 < d < 0x1_0000_0000_0000_0000,
    ensures
        i64::MIN <= wrapped_i64(d) <= i64::MAX,
        (d - wrapped_i64(d)) % 0x1_0000_0000_0000_0000 == 0,
{
}

/// The credits of a sample, put on top of the previous total, give the
/// cumulative one: this holds of the last entry of the reported account's
/// `epochCredits`, whatever the two totals, as long as the cumulative one is not
/// the smaller. Where it is, or where there is no such entry, the credits are 0.
pub proof fn law_credits_are_cumulative_less_previous(
    health: OutcomeView,
    epoch_info: OutcomeView,
    vote_accounts: OutcomeView,
    pk: Option<Seq<char>>,
    votes: JsonTree,
    items: Seq<JsonTree>,
    i: int,
    delinquent: bool,
    entries: Seq<JsonTree>,
    cumulative: u64,
    previous: u64,
)
    requires
        poll_of(health, epoch_info, vote_accounts, pk) is Up,
        brought(vote_accounts, votes),
        stands_in(votes, pk, items, delinquent),
        reported_at(items, pk, i),
    ensures
        ({
            let s = poll_of(health, epoch_info, vote_accounts, pk)->Up_0;
            let history = items[i].member("epochCredits"@);
            &&& history == JsonTree::Array(entries) && entries.len() > 0 && entries[entries.len()
                - 1].element(1) == JsonTree::Int(cumulative as int) && entries[entries.len()
                - 1].element(2) == JsonTree::Int(previous as int) ==> {
                &&& cumulative >= previous ==> s.credits + previous == cumulative
                &&& cumulative < previous ==> s.credits == 0
            }
            &&& history == JsonTree::Array(entries) && entries.len() == 0 ==> s.credits == 0
            &&& history == JsonTree::Array(entries) && entries.len() > 0 && (!is_uint(
                entries[entries.len() - 1].element(1),
            ) || !is_uint(entries[entries.len() - 1].element(2))) ==> s.credits == 0
            &&& !(history is Array) ==> s.credits == 0
        }),
{
    lemma_account_is_picked(votes, pk, items, i, delinquent);
}

/// Whether a JSON value is an integer of 64 bits without a sign.
pub open spec fn is_uint(t: JsonTree) -> bool {
    t matches JsonTree::Int(n) && 0 <= n <= 0xffff_ffff_ffff_ffff
}

/// A poll is down for the first thing that is missing, and names it: the epoch,
/// the slot, the vote account, the last vote.
pub proof fn law_poll_is_down_for_what_is_missing(
    health: OutcomeView,
    epoch_info: OutcomeView,
    vote_accounts: OutcomeView,
    pk: Option<Seq<char>>,
    info: JsonTree,
    votes: JsonTree,
    items: Seq<JsonTree>,
    i: int,
    delinquent: bool,
)
    requires
        brought(epoch_info, info),
    ensures
        ({
            let sample = poll_of(health, epoch_info, vote_accounts, pk);
            let told = is_uint(info.member("epoch"@)) && is_uint(info.member("absoluteSlot"@))
                && brought(vote_accounts, votes);
            &&& !is_uint(info.member("epoch"@)) ==> sample == SampleView::Down("epoch"@)
            &&& is_uint(info.member("epoch"@)) && !is_uint(info.member("absoluteSlot"@)) ==> sample
                == SampleView::Down("absoluteSlot"@)
            &&& told && holds_none(votes.member("current"@), pk) && holds_none(
                votes.member("delinquent"@),
                pk,
            ) ==> sample == SampleView::Down("vote account not found in getVoteAccounts"@)
            &&& told && stands_in(votes, pk, items, delinquent) && reported_at(items, pk, i)
                && !is_uint(items[i].member("lastVote"@)) ==> sample == SampleView::Down(
                "lastVote"@,
            )
        }),
{
    if brought(vote_accounts, votes) {
        if holds_none(votes.member("current"@), pk) && holds_none(votes.member("delinquent"@), pk) {
            lemma_none_is_picked(votes.member("current"@), pk);
            lemma_none_is_picked(votes.member("delinquent"@), pk);
        }
        if stands_in(votes, pk, items, delinquent) && reported_at(items, pk, i) {
            lemma_account_is_picked(votes, pk, items, i, delinquent);
        }
    }
}

/// A call that goes wrong is reported with its method in front and the cause
/// behind. Only a reply without an error and with a result counts as none of
/// this.
pub proof fn law_trouble_names_method_and_cause(method: Seq<char>, outcome: OutcomeView)
    ensures
        ({
            let result = result_of(method, outcome);
            &&& result is Ok ==> brought(outcome, result->Ok_0)
            &&& forall|t: JsonTree| brought(outcome, t) ==> result == Ok::<JsonTree, Seq<char>>(t)
            &&& result is Err ==> starts_with(result->Err_0, method)
            &&& outcome matches OutcomeView::RequestFailed(why) ==> result is Err && result->Err_0.skip(
                method.len() as int,
            ) == ": request failed: "@ + why
            &&& outcome matches OutcomeView::BadJson(why) ==> result is Err && result->Err_0.skip(
                method.len() as int,
            ) == ": bad JSON: "@ + why
            &&& outcome matches OutcomeView::Reply(reply) ==> {
                &&& reply.has_member("error"@) ==> result is Err && result->Err_0.skip(
                    method.len() as int,
                ) == ": rpc error: "@ + json_text(reply.member("error"@))
                &&& !reply.has_member("error"@) && !reply.has_member("result"@) ==> result is Err
                    && result->Err_0.skip(method.len() as int) == ": no result field"@
            }
        }),
{
    let result = result_of(method, outcome);
    match outcome {
        OutcomeView::RequestFailed(why) => {
            lemma_after_method(method, ": request failed: "@ + why);
            assert(result->Err_0 =~= method + (": request failed: "@ + why));
        },
        OutcomeView::BadJson(why) => {
            lemma_after_method(method, ": bad JSON: "@ + why);
            assert(result->Err_0 =~= method + (": bad JSON: "@ + why));
        },
        OutcomeView::Reply(reply) => {
            let text = json_text(reply.member("error"@));
            if reply.has_member("error"@) {
                lemma_after_method(method, ": rpc error: "@ + text);
                assert(result->Err_0 =~= method + (": rpc error: "@ + text));
            } else if reply.has_member("result"@) {
                assert(brought(outcome, result->Ok_0));
            } else {
                lemma_after_method(method, ": no result field"@);
            }
        },
    }
}

proof fn lemma_after_method(method: Seq<char>, cause: Seq<char>)
    ensures
        starts_with(method + cause, method),
        (method + cause).skip(method.len() as int) == cause,
{
    lemma_front(method, cause);
    assert((method + cause).skip(method.len() as int) =~= cause);
}

/// A poll whose second or third call goes wrong is down with that call's reason;
/// the second call's comes first.
pub proof fn law_poll_is_down_for_the_first_trouble(
    health: OutcomeView,
    epoch_info: OutcomeView,
    vote_accounts: OutcomeView,
    pk: Option<Seq<char>>,
)
    ensures
        ({
            let sample = poll_of(health, epoch_info, vote_accounts, pk);
            let second = result_of("getEpochInfo"@, epoch_info);
            let third = result_of("getVoteAccounts"@, vote_accounts);
            &&& second is Err ==> sample == SampleView::Down(second->Err_0)
            &&& second is Ok && is_uint(second->Ok_0.member("epoch"@)) && is_uint(
                second->Ok_0.member("absoluteSlot"@),
            ) && third is Err ==> sample == SampleView::Down(third->Err_0)
        }),
{
}

/// Without a key, a poll that finds an account keeps that account's key. With
/// one, or where the call goes wrong or finds nothing, the key stays as it was,
/// as it does over the first two calls.
pub proof fn law_first_account_found_is_kept(
    phase: Phase,
    outcome: OutcomeView,
    pk: Option<Seq<char>>,
    votes: JsonTree,
    items: Seq<JsonTree>,
    delinquent: bool,
    key: Seq<char>,
)
    ensures
        phase is VoteAccounts && brought(outcome, votes) && stands_in(
            votes,
            None,
            items,
            delinquent,
        ) && reported_at(items, None, 0) && items[0].member("votePubkey"@) == JsonTree::Text(key)
            ==> pubkey_after(phase, outcome, None) == Some(key),
        phase is VoteAccounts && brought(outcome, votes) && stands_in(
            votes,
            None,
            items,
            delinquent,
        ) && reported_at(items, None, 0) && !(items[0].member("votePubkey"@) is Text)
            ==> pubkey_after(phase, outcome, None) is None,
        phase is VoteAccounts && result_of("getVoteAccounts"@, outcome) is Err ==> pubkey_after(
            phase,
            outcome,
            pk,
        ) == pk,
        phase is VoteAccounts && brought(outcome, votes) && holds_none(
            votes.member("current"@),
            None,
        ) && holds_none(votes.member("delinquent"@), None) ==> pubkey_after(phase, outcome, None)
            is None,
        !(phase is VoteAccounts) ==> pubkey_after(phase, outcome, pk) == pk,
        pk is Some ==> pubkey_after(phase, outcome, pk) == pk,
{
    if brought(outcome, votes) {
        if stands_in(votes, None, items, delinquent) && reported_at(items, None, 0) {
            lemma_account_is_picked(votes, None, items, 0, delinquent);
        }
        if holds_none(votes.member("current"@), None) && holds_none(
            votes.member("delinquent"@),
            None,
        ) {
            lemma_none_is_picked(votes.member("current"@), None);
            lemma_none_is_picked(votes.member("delinquent"@), None);
        }
    }
}

/// The calls ask for health, epoch info and vote accounts by their names. Only
/// the last one takes a parameter, and only once a key is known: an object whose
/// one member is the key.
pub proof fn law_calls_ask_by_name(
    healthy: bool,
    epoch: u64,
    network_slot: u64,
    pk: Option<Seq<char>>,
)
    ensures
        ({
            let first = request_of(Phase::Health, pk);
            let second = request_of(Phase::EpochInfo { healthy }, pk);
            let third = request_of(Phase::VoteAccounts { healthy, epoch, network_slot }, pk);
            &&& first.member("method"@) == JsonTree::Text("getHealth"@)
            &&& second.member("method"@) == JsonTree::Text("getEpochInfo"@)
            &&& third.member("method"@) == JsonTree::Text("getVoteAccounts"@)
            &&& first.member("params"@) == JsonTree::Array(seq![])
            &&& second.member("params"@) == JsonTree::Array(seq![])
            &&& pk is None ==> third.member("params"@) == JsonTree::Array(seq![])
            &&& pk is Some ==> third.member("params"@)->Array_0.len() == 1 && third.member(
                "params"@,
            )->Array_0[0]->Object_0.dom() == set!["votePubkey"@] && third.member(
                "params"@,
            )->Array_0[0].member("votePubkey"@) == JsonTree::Text(pk->0)
        }),
{
    law_request_is_json_rpc(Phase::Health, pk);
    law_request_is_json_rpc(Phase::EpochInfo { healthy }, pk);
    let phase = Phase::VoteAccounts { healthy, epoch, network_slot };
    law_request_is_json_rpc(phase, pk);
    if pk is Some {
        let filter = params_of(phase, pk)->Array_0[0]->Object_0;
        assert(filter.dom() =~= set!["votePubkey"@]);
    }
}

proof fn lemma_account_is_picked(
    votes: JsonTree,
    pk: Option<Seq<char>>,
    items: Seq<JsonTree>,
    i: int,
    delinquent: bool,
)
    requires
        stands_in(votes, pk, items, delinquent),
        reported_at(items, pk, i),
    ensures
        pick_account(vote_accounts_of(votes), pk) == Some((account_of(items[i]), delinquent)),
{
    let set = items.map_values(|item: JsonTree| account_of(item));
    if pk is Some {
        assert forall|j: int| 0 <= j < i implies #[trigger] set[j].vote_pubkey != Some(pk->0) by {
            assert(items[j].member("votePubkey"@) != JsonTree::Text(pk->0));
        }
        lemma_first_at(set, pk->0, i);
    }
    if delinquent {
        lemma_none_is_picked(votes.member("current"@), pk);
    }
}

proof fn lemma_none_is_picked(set: JsonTree, pk: Option<Seq<char>>)
    requires
        holds_none(set, pk),
    ensures
        pick(account_set_of(set), pk) is None,
{
    if set is Array {
        let items = set->Array_0;
        let accounts = items.map_values(|item: JsonTree| account_of(item));
        match pk {
            Some(key) => {
                if first_under(accounts, key) is Some {
                    let i = lemma_first_place(accounts, key);
                    assert forall|j: int| 0 <= j < i implies #[trigger] items[j].member(
                        "votePubkey"@,
                    ) != JsonTree::Text(key) by {
                        assert(accounts[j].vote_pubkey != Some(key));
                    }
                    assert(items[i].member("votePubkey"@) == JsonTree::Text(key));
                    assert(reported_at(items, pk, i));
                }
            },
            None => {
                assert(!reported_at(items, pk, 0));
            },
        }
    }
}

proof fn lemma_first_at(set: Seq<AccountView>, key: Seq<char>, i: int)
    requires
        0 <= i < set.len(),
        set[i].vote_pubkey == Some(key),
        forall|j: int| 0 <= j < i ==> #[trigger] set[j].vote_pubkey != Some(key),
    ensures
        first_under(set, key) == Some(set[i]),
    decreases i,
{
    if i > 0 {
        let rest = set.drop_first();
        assert(set[0].vote_pubkey != Some(key));
        assert forall|j: int| 0 <= j < i - 1 implies #[trigger] rest[j].vote_pubkey != Some(
            key,
        ) by {
            assert(rest[j] == set[j + 1]);
        }
        lemma_first_at(rest, key, i - 1);
    }
}

proof fn lemma_first_place(set: Seq<AccountView>, key: Seq<char>) -> (i: int)
    requires
        first_under(set, key) is Some,
    ensures
        0 <= i < set.len(),
        set[i].vote_pubkey == Some(key),
        forall|j: int| 0 <= j < i ==> #[trigger] set[j].vote_pubkey != Some(key),
    decreases set.len(),
{
    if set[0].vote_pubkey == Some(key) {
        0
    } else {
        let rest = set.drop_first();
        let i = lemma_first_place(rest, key);
        assert forall|j: int| 0 <= j < i + 1 implies #[trigger] set[j].vote_pubkey != Some(
            key,
        ) by {
            if j > 0 {
                assert(rest[j - 1] == set[j]);
            }
        }
        i + 1
    }
}

} // verus!
