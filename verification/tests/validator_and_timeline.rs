use driftwatch::banner::{poll_banner, run_banner, watch_banner};
use driftwatch::correlate::{
    elapsed, emit, epoch_secs, to_json, up_json, window_json, Action, Clock, Correlator, Event,
};
use driftwatch::output::{compact, state, status_line, up_line, State};
use driftwatch::rpc::{
    build_sample, call_result, epoch_credits, find_account, method, read_epoch_info,
    read_vote_account, read_vote_accounts, vote_lag, Outcome, Phase, RpcPoller, Sample, Step,
    ValidatorSample, VoteAccount, VoteAccounts,
};
use driftwatch::window::WindowStats;

fn json(text: &str) -> serde_json::Value {
    serde_json::from_str(text).unwrap()
}

fn reply(text: &str) -> Outcome {
    Outcome::Reply(json(text))
}

fn sample() -> ValidatorSample {
    ValidatorSample {
        epoch: 0,
        network_slot: 1_084,
        my_last_vote: 1_083,
        vote_lag: 1,
        credits: 4_201,
        delinquent: false,
        healthy: true,
    }
}

fn down(reason: &str) -> Sample {
    Sample::Down { reason: reason.to_string() }
}

#[test]
fn status_lines() {
    assert_eq!(
        status_line(&Sample::Up(sample())),
        "epoch 0 | slot 1,084 | last vote 1,083 | lag 1 | credits 4,201 | OK"
    );
    assert_eq!(up_line(&sample()), status_line(&Sample::Up(sample())));
    assert_eq!(
        status_line(&down("getEpochInfo: request failed: refused")),
        "DOWN | getEpochInfo: request failed: refused"
    );
    let ahead = ValidatorSample { vote_lag: -3, ..sample() };
    assert_eq!(
        up_line(&ahead),
        "epoch 0 | slot 1,084 | last vote 1,083 | lag -3 | credits 4,201 | OK"
    );
}

#[test]
fn most_severe_state_wins() {
    assert_eq!(state(&sample()), State::Healthy);
    let lagging = ValidatorSample { vote_lag: 151, ..sample() };
    assert_eq!(state(&lagging), State::Lagging);
    assert_eq!(state(&ValidatorSample { vote_lag: 150, ..sample() }), State::Healthy);
    let delinquent = ValidatorSample { delinquent: true, ..lagging };
    assert_eq!(state(&delinquent), State::Delinquent);
    let unhealthy = ValidatorSample { healthy: false, ..delinquent };
    assert_eq!(state(&unhealthy), State::Unhealthy);
    for s in [State::Healthy, State::Lagging, State::Delinquent, State::Unhealthy] {
        assert_eq!(s.json_label(), s.label().to_lowercase());
    }
    assert_eq!(State::Healthy.label(), "OK");
    assert_eq!(State::Lagging.label(), "LAGGING");
    assert_eq!(State::Delinquent.label(), "DELINQUENT");
    assert_eq!(State::Unhealthy.label(), "UNHEALTHY");
}

#[test]
fn compact_samples() {
    let s = ValidatorSample { network_slot: 1_459, credits: 22_781, ..sample() };
    assert_eq!(compact(&Sample::Up(s)), "slot 1,459 | lag 1 | credits 22,781 | OK");
    assert_eq!(compact(&down("gone")), "DOWN | gone");
}

#[test]
fn lag_is_slot_minus_vote() {
    assert_eq!(vote_lag(1_084, 1_083), 1);
    assert_eq!(vote_lag(5, 9), -4);
    assert_eq!(vote_lag(i64::MAX as u64, 0), i64::MAX);
    assert_eq!(vote_lag(1 << 63, 0), i64::MIN);
    assert_eq!(vote_lag(0, u64::MAX), 1);
    assert_eq!(
        vote_lag(u64::MAX - 7, 3),
        ((u64::MAX - 7) as i64).wrapping_sub(3)
    );
}

#[test]
fn credits_never_go_below_zero() {
    assert_eq!(epoch_credits(None), 0);
    assert_eq!(epoch_credits(Some((500, 420))), 80);
    assert_eq!(epoch_credits(Some((420, 500))), 0);
}

#[test]
fn call_results() {
    let ok = reply(r#"{"jsonrpc":"2.0","result":{"epoch":3},"id":1}"#);
    assert_eq!(call_result("m", &ok), Ok(&json(r#"{"epoch":3}"#)));
    let error = reply(r#"{"error":{"message":"Node is behind","code":-32005,"load":1.5},"id":1}"#);
    assert_eq!(
        call_result("getHealth", &error),
        Err(r#"getHealth: rpc error: {"code":-32005,"load":1.5,"message":"Node is behind"}"#
            .to_string())
    );
    let both = reply(r#"{"error":null,"result":1}"#);
    assert_eq!(call_result("m", &both), Err("m: rpc error: null".to_string()));
    assert_eq!(call_result("m", &reply("{}")), Err("m: no result field".to_string()));
    assert_eq!(call_result("m", &reply("[1]")), Err("m: no result field".to_string()));
    assert_eq!(
        call_result("m", &Outcome::RequestFailed("connection refused".to_string())),
        Err("m: request failed: connection refused".to_string())
    );
    assert_eq!(
        call_result("m", &Outcome::BadJson("expected value".to_string())),
        Err("m: bad JSON: expected value".to_string())
    );
}

#[test]
fn epoch_info_fields() {
    let info = read_epoch_info(&json(r#"{"epoch":612,"absoluteSlot":264300000}"#));
    assert_eq!((info.epoch, info.absolute_slot), (Some(612), Some(264_300_000)));
    let info = read_epoch_info(&json(r#"{"epoch":-1,"absoluteSlot":1.0}"#));
    assert_eq!((info.epoch, info.absolute_slot), (None, None));
    let info = read_epoch_info(&json("[612]"));
    assert_eq!((info.epoch, info.absolute_slot), (None, None));
}

#[test]
fn vote_account_fields() {
    let a = read_vote_account(&json(
        r#"{"votePubkey":"K","lastVote":9,"epochCredits":[[1,5,0],[2,12,5]]}"#,
    ));
    assert_eq!(a.vote_pubkey.as_deref(), Some("K"));
    assert_eq!((a.last_vote, a.last_credits), (Some(9), Some((12, 5))));
    for text in [
        "{}",
        r#"{"epochCredits":[]}"#,
        r#"{"epochCredits":[[1,5,0],[2,12]]}"#,
        r#"{"epochCredits":[[1,"5",0]]}"#,
        r#"{"epochCredits":7}"#,
        r#"{"epochCredits":[7],"votePubkey":1,"lastVote":"9"}"#,
        "null",
    ] {
        let a = read_vote_account(&json(text));
        assert_eq!(a.vote_pubkey, None);
        assert_eq!((a.last_vote, a.last_credits), (None, None));
    }
}

fn account(key: &str, last_vote: u64) -> VoteAccount {
    VoteAccount {
        vote_pubkey: Some(key.to_string()),
        last_vote: Some(last_vote),
        last_credits: Some((12, 5)),
    }
}

#[test]
fn current_set_is_searched_before_delinquent() {
    let accounts = VoteAccounts {
        current: Some(vec![account("A", 1), account("B", 2), account("B", 3)]),
        delinquent: Some(vec![account("B", 4), account("C", 5)]),
    };
    let vote = |pk: Option<&str>| {
        find_account(&accounts, &pk.map(|k| k.to_string()))
            .map(|(a, delinquent)| (a.last_vote.unwrap(), delinquent))
    };
    assert_eq!(vote(None), Some((1, false)));
    assert_eq!(vote(Some("B")), Some((2, false)));
    assert_eq!(vote(Some("C")), Some((5, true)));
    assert_eq!(vote(Some("D")), None);
    let only_delinquent = VoteAccounts { current: None, delinquent: Some(vec![account("X", 8)]) };
    let (a, delinquent) = find_account(&only_delinquent, &None).unwrap();
    assert_eq!((a.last_vote, delinquent), (Some(8), true));
    let nothing = VoteAccounts { current: Some(vec![]), delinquent: None };
    assert!(find_account(&nothing, &None).is_none());
}

#[test]
fn samples_from_plain_values() {
    let accounts = VoteAccounts { current: Some(vec![account("A", 90)]), delinquent: None };
    match build_sample(true, 7, 100, &accounts, &None) {
        Sample::Up(s) => assert_eq!(
            s,
            ValidatorSample {
                epoch: 7,
                network_slot: 100,
                my_last_vote: 90,
                vote_lag: 10,
                credits: 7,
                delinquent: false,
                healthy: true,
            }
        ),
        Sample::Down { reason } => panic!("{}", reason),
    }
    match build_sample(true, 7, 100, &accounts, &Some("Z".to_string())) {
        Sample::Down { reason } => assert_eq!(reason, "vote account not found in getVoteAccounts"),
        Sample::Up(_) => panic!(),
    }
    let voteless = VoteAccounts {
        current: Some(vec![VoteAccount { vote_pubkey: None, last_vote: None, last_credits: None }]),
        delinquent: None,
    };
    match build_sample(true, 7, 100, &voteless, &None) {
        Sample::Down { reason } => assert_eq!(reason, "lastVote"),
        Sample::Up(_) => panic!(),
    }
}

#[test]
fn request_bodies() {
    let poller = RpcPoller::new("http://127.0.0.1:8899".to_string());
    assert_eq!(poller.url(), "http://127.0.0.1:8899");
    assert_eq!(
        poller.request(Phase::Health),
        json(r#"{"jsonrpc":"2.0","id":1,"method":"getHealth","params":[]}"#)
    );
    let votes = Phase::VoteAccounts { healthy: true, epoch: 1, network_slot: 2 };
    assert_eq!(
        poller.request(votes),
        json(r#"{"jsonrpc":"2.0","id":1,"method":"getVoteAccounts","params":[]}"#)
    );
    let poller = poller.with_vote_pubkey("Vote111".to_string());
    assert_eq!(poller.vote_pubkey().map(|s| s.as_str()), Some("Vote111"));
    assert_eq!(
        poller.request(votes),
        json(
            r#"{"jsonrpc":"2.0","id":1,"method":"getVoteAccounts","params":[{"votePubkey":"Vote111"}]}"#
        )
    );
    assert_eq!(
        poller.request(Phase::EpochInfo { healthy: true }),
        json(r#"{"jsonrpc":"2.0","id":1,"method":"getEpochInfo","params":[]}"#)
    );
    assert_eq!(method(votes), "getVoteAccounts");
}

/// Drives a whole poll with the given replies; how many calls it took, and the
/// sample.
fn run_poll(poller: &mut RpcPoller, replies: [Outcome; 3]) -> (usize, Sample) {
    let mut phase = Phase::Health;
    for (i, outcome) in replies.iter().enumerate() {
        match poller.advance(phase, outcome) {
            Step::Call(next) => phase = next,
            Step::Done(sample) => return (i + 1, sample),
        }
    }
    panic!("a poll takes at most three calls");
}

fn refused() -> Outcome {
    Outcome::RequestFailed("connection refused".to_string())
}

const HEALTHY: &str = r#"{"result":"ok"}"#;
const EPOCH: &str = r#"{"result":{"epoch":3,"absoluteSlot":1000}}"#;
const VOTES: &str = r#"{"result":{"current":[{"votePubkey":"K","lastVote":998,"epochCredits":[[3,50,8]]}],"delinquent":[]}}"#;

#[test]
fn poll_of_a_healthy_validator() {
    let mut poller = RpcPoller::new(String::new());
    let (calls, sample) = run_poll(&mut poller, [reply(HEALTHY), reply(EPOCH), reply(VOTES)]);
    assert_eq!(calls, 3);
    assert_eq!(
        status_line(&sample),
        "epoch 3 | slot 1,000 | last vote 998 | lag 2 | credits 42 | OK"
    );
    assert_eq!(poller.vote_pubkey().map(|s| s.as_str()), Some("K"));
    let (_, again) = run_poll(
        &mut poller,
        [
            reply(HEALTHY),
            reply(EPOCH),
            reply(r#"{"result":{"current":[{"votePubkey":"L","lastVote":1}],"delinquent":[]}}"#),
        ],
    );
    assert_eq!(status_line(&again), "DOWN | vote account not found in getVoteAccounts");
    assert_eq!(poller.vote_pubkey().map(|s| s.as_str()), Some("K"));
}

#[test]
fn unhealthy_is_not_fatal() {
    for health in [
        refused(),
        reply(r#"{"error":{"code":-32005}}"#),
        reply(r#"{"result":"behind"}"#),
        reply(r#"{"result":1}"#),
        Outcome::BadJson("html".to_string()),
    ] {
        let mut poller = RpcPoller::new(String::new());
        let (calls, sample) = run_poll(&mut poller, [health, reply(EPOCH), reply(VOTES)]);
        assert_eq!(calls, 3);
        assert_eq!(
            status_line(&sample),
            "epoch 3 | slot 1,000 | last vote 998 | lag 2 | credits 42 | UNHEALTHY"
        );
    }
}

#[test]
fn outages_become_down_samples() {
    let mut poller = RpcPoller::new(String::new());
    let (calls, sample) = run_poll(&mut poller, [refused(), refused(), refused()]);
    assert_eq!(calls, 2);
    assert_eq!(
        status_line(&sample),
        "DOWN | getEpochInfo: request failed: connection refused"
    );
    let (calls, sample) = run_poll(&mut poller, [reply(HEALTHY), reply(EPOCH), refused()]);
    assert_eq!(calls, 3);
    assert_eq!(
        status_line(&sample),
        "DOWN | getVoteAccounts: request failed: connection refused"
    );
    for (epoch_info, reason) in [
        (r#"{"result":{"absoluteSlot":1}}"#, "epoch"),
        (r#"{"result":{"epoch":1}}"#, "absoluteSlot"),
        (r#"{"result":null}"#, "epoch"),
        ("{}", "getEpochInfo: no result field"),
    ] {
        let (calls, sample) =
            run_poll(&mut poller, [reply(HEALTHY), reply(epoch_info), reply(VOTES)]);
        assert_eq!(calls, 2);
        assert_eq!(status_line(&sample), format!("DOWN | {reason}"));
    }
}

#[test]
fn key_is_remembered_even_without_a_last_vote() {
    let mut poller = RpcPoller::new(String::new());
    let (_, sample) = run_poll(
        &mut poller,
        [
            reply(HEALTHY),
            reply(EPOCH),
            reply(r#"{"result":{"current":{},"delinquent":[{"votePubkey":"Q"}]}}"#),
        ],
    );
    assert_eq!(status_line(&sample), "DOWN | lastVote");
    assert_eq!(poller.vote_pubkey().map(|s| s.as_str()), Some("Q"));
}

#[test]
fn vote_account_sets() {
    let v = read_vote_accounts(&json(r#"{"current":[{"lastVote":4}],"delinquent":"none"}"#));
    assert_eq!(v.current.unwrap().len(), 1);
    assert!(v.delinquent.is_none());
}

fn window() -> WindowStats {
    WindowStats {
        window_secs: 3,
        reqs: 23_633,
        writes: 23_000,
        reads: 600,
        others: 33,
        bytes: 23_633 * 4_096,
        errors: 2,
        p50_ns: 100_999,
        p99_ns: 59_200_000,
        max_ns: 61_000_001,
    }
}

#[test]
fn stopwatch() {
    assert_eq!(elapsed(0), "+00:00");
    assert_eq!(elapsed(24), "+00:24");
    assert_eq!(elapsed(3_599), "+59:59");
    assert_eq!(elapsed(3_600), "+1:00:00");
    assert_eq!(elapsed(360_061), "+100:01:01");
}

#[test]
fn clock_before_the_epoch_is_zero() {
    assert_eq!(epoch_secs(Some(1_700_000_000)), 1_700_000_000);
    assert_eq!(epoch_secs(None), 0);
}

#[test]
fn json_objects() {
    let up = Some(Sample::Up(sample()));
    let text = to_json(&window(), &up, 1_700_000_000);
    assert_eq!(
        text,
        r#"{"disk":{"bytes":96800768,"errors":2,"max_us":61000,"others":33,"p50_us":100,"p99_us":59200,"reads":600,"reqs":23633,"window_secs":3,"writes":23000},"ts":1700000000,"validator":{"credits":4201,"delinquent":false,"epoch":0,"healthy":true,"last_vote":1083,"slot":1084,"state":"ok","vote_lag":1}}"#
    );
    assert_eq!(json(&text), window_json(&window(), &up, 1_700_000_000));
    assert_eq!(json(&text)["validator"], up_json(&sample()));
    let text = to_json(&window(), &None, 1);
    assert!(json(&text)["validator"].is_null());
    let text = to_json(&window(), &Some(down("line one\nline \"two\"")), 1);
    assert!(!text.contains('\n'));
    assert_eq!(json(&text)["validator"]["state"], "down");
    assert_eq!(json(&text)["validator"]["reason"], "line one\nline \"two\"");
    let behind = ValidatorSample { vote_lag: -2, healthy: false, ..sample() };
    assert_eq!(up_json(&behind)["vote_lag"], -2);
    assert_eq!(up_json(&behind)["state"], "unhealthy");
}

fn clock() -> Clock {
    Clock { elapsed_secs: 24, epoch_secs: 1_700_000_000 }
}

#[test]
fn combined_lines() {
    let s = ValidatorSample { network_slot: 1_459, credits: 22_781, ..sample() };
    assert_eq!(
        emit(&window(), &Some(Sample::Up(s)), false, clock()),
        "+00:24 | disk p99 59.2ms | 23,633 reqs | 30.8 MB/s || slot 1,459 | lag 1 | credits 22,781 | OK"
    );
    assert_eq!(
        emit(&window(), &None, false, clock()),
        "+00:24 | disk p99 59.2ms | 23,633 reqs | 30.8 MB/s || validator: no sample yet"
    );
    assert_eq!(
        emit(&window(), &None, true, clock()),
        to_json(&window(), &None, 1_700_000_000)
    );
}

fn printed(action: Action) -> (String, Option<String>) {
    match action {
        Action::Print(report) => (report.line, report.alert),
        Action::Wait => panic!("waits"),
        Action::Stop => panic!("stops"),
    }
}

#[test]
fn windows_meet_the_latest_sample() {
    let mut c = Correlator::new(false, 20);
    let (line, alert) = printed(c.combine(Event::Window(Some(window())), clock()));
    assert!(line.ends_with("|| validator: no sample yet"));
    assert_eq!(alert, None);
    assert!(matches!(c.combine(Event::Sample(Some(down("gone"))), clock()), Action::Wait));
    assert!(matches!(
        c.combine(Event::Sample(Some(Sample::Up(sample()))), clock()),
        Action::Wait
    ));
    for _ in 0..2 {
        let (line, _) = printed(c.combine(Event::Window(Some(window())), clock()));
        assert!(line.ends_with("|| slot 1,084 | lag 1 | credits 4,201 | OK"));
    }
    assert!(matches!(c.combine(Event::Sample(None), clock()), Action::Stop));
    assert!(matches!(c.combine(Event::Window(None), clock()), Action::Stop));
}

#[test]
fn drift_on_the_timeline() {
    let mut c = Correlator::new(true, 20);
    let at = |p99_ns: u64| Event::Window(Some(WindowStats { p99_ns, ..window() }));
    c.combine(Event::Sample(Some(Sample::Up(sample()))), clock());
    for _ in 0..4 {
        assert_eq!(printed(c.combine(at(213_000), clock())).1, None);
    }
    c.combine(
        Event::Sample(Some(Sample::Up(ValidatorSample { vote_lag: 9, ..sample() }))),
        clock(),
    );
    assert_eq!(printed(c.combine(at(40_600_000), clock())).1, None);
    assert_eq!(printed(c.combine(at(40_600_000), clock())).1, None);
    let (line, alert) = printed(c.combine(at(40_600_000), clock()));
    assert_eq!(json(&line)["disk"]["p99_us"], 40_600);
    assert_eq!(
        alert.as_deref(),
        Some("!! DRIFT: disk p99 40.6ms = 190x baseline 213µs for 3 windows, vote lag 9 vs norm 1. disk is the lead signal")
    );
    c.combine(Event::Sample(Some(down("dead"))), clock());
    assert_eq!(printed(c.combine(at(40_600_000), clock())).1, None);
}

#[test]
fn banners() {
    assert_eq!(
        poll_banner("http://127.0.0.1:8899", 2),
        "driftwatch — polling http://127.0.0.1:8899 every 2s (Ctrl-C to stop)\n"
    );
    assert_eq!(
        watch_banner(&Some("253:16".to_string())),
        "driftwatch — profiling block device 253:16 (Ctrl-C to stop)\n"
    );
    assert_eq!(
        watch_banner(&None),
        "driftwatch — profiling ALL block devices (Ctrl-C to stop)\n"
    );
    assert_eq!(
        run_banner(&None, "http://h", 3),
        "driftwatch — disk ALL + validator http://h, 3s windows (Ctrl-C to stop)\n"
    );
    assert_eq!(
        run_banner(&Some("259:0".to_string()), "http://h", 3),
        "driftwatch — disk 259:0 + validator http://h, 3s windows (Ctrl-C to stop)\n"
    );
}

#[test]
fn discovered_account_is_asked_for_by_its_key() {
    let mut poller = RpcPoller::new(String::new());
    let votes = Phase::VoteAccounts { healthy: true, epoch: 3, network_slot: 1_000 };
    assert_eq!(poller.request(votes)["params"], json("[]"));
    run_poll(&mut poller, [reply(HEALTHY), reply(EPOCH), reply(VOTES)]);
    assert_eq!(poller.request(votes)["params"], json(r#"[{"votePubkey":"K"}]"#));
}

#[test]
fn outage_on_the_timeline_is_the_worst_case() {
    let mut c = Correlator::new(false, 20);
    let at = |p99_ns: u64| Event::Window(Some(WindowStats { p99_ns, ..window() }));
    c.combine(at(300_000), clock());
    c.combine(Event::Sample(Some(down("gone"))), clock());
    assert_eq!(printed(c.combine(at(5_000_000), clock())).1, None);
    assert_eq!(printed(c.combine(at(5_000_000), clock())).1, None);
    let (line, alert) = printed(c.combine(at(5_000_000), clock()));
    assert!(line.ends_with("|| DOWN | gone"));
    assert_eq!(
        alert.as_deref(),
        Some("!! DRIFT: disk p99 5.0ms = 16x baseline 300µs for 3 windows, vote lag DOWN vs norm unknown. disk is the lead signal")
    );
}
