//! What each mode says when it starts.

use vstd::prelude::*;
use crate::rpc::text_of;
use crate::text::{decimal, ends_with, lemma_back, lemma_front, push_decimal, starts_with};

verus! {

/// The banner of the poll mode.
pub open spec fn poll_text(rpc_url: Seq<char>, interval: nat) -> Seq<char> {
    "driftwatch — polling "@ + rpc_url + " every "@ + decimal(interval) + "s (Ctrl-C to stop)\n"@
}

/// The banner of the watch mode.
pub open spec fn watch_text(dev: Option<Seq<char>>) -> Seq<char> {
    match dev {
        Some(d) => "driftwatch — profiling block device "@ + d + " (Ctrl-C to stop)\n"@,
        None => "driftwatch — profiling ALL block devices (Ctrl-C to stop)\n"@,
    }
}

/// The banner of the joined mode.
pub open spec fn run_text(dev: Option<Seq<char>>, rpc_url: Seq<char>, window: nat) -> Seq<char> {
    "driftwatch — disk "@ + match dev {
        Some(d) => d,
        None => "ALL"@,
    } + " + validator "@ + rpc_url + ", "@ + decimal(window) + "s windows (Ctrl-C to stop)\n"@
}

/// What `poll` says when it starts.
pub fn poll_banner(rpc_url: &str, interval: u64) -> (r: String)
    ensures
        r@ == poll_text(rpc_url@, interval as nat),
{
    let mut out = String::from_str("driftwatch — polling ");
    out.append(rpc_url);
    out.append(" every ");
    push_decimal(&mut out, interval);
    out.append("s (Ctrl-C to stop)\n");
    out
}

/// What `watch` says when it starts.
pub fn watch_banner(dev: &Option<String>) -> (r: String)
    ensures
        r@ == watch_text(text_of(*dev)),
{
    match dev {
        Some(d) => {
            let mut out = String::from_str("driftwatch — profiling block device ");
            out.append(d.as_str());
            out.append(" (Ctrl-C to stop)\n");
            out
        },
        None => String::from_str("driftwatch — profiling ALL block devices (Ctrl-C to stop)\n"),
    }
}

/// What `run` says when it starts.
pub fn run_banner(dev: &Option<String>, rpc_url: &str, window: u64) -> (r: String)
    ensures
        r@ == run_text(text_of(*dev), rpc_url@, window as nat),
{
    let mut out = String::from_str("driftwatch — disk ");
    match dev {
        Some(d) => out.append(d.as_str()),
        None => out.append("ALL"),
    }
    out.append(" + validator ");
    out.append(rpc_url);
    out.append(", ");
    push_decimal(&mut out, window);
    out.append("s windows (Ctrl-C to stop)\n");
    out
}

/// The banner of the poll mode names the endpoint and the interval.
pub proof fn law_poll_banner_names_endpoint_and_interval(rpc_url: Seq<char>, interval: nat)
    ensures
        starts_with(poll_text(rpc_url, interval), "driftwatch — polling "@ + rpc_url + " every "@),
        ends_with(
            poll_text(rpc_url, interval),
            " every "@ + decimal(interval) + "s (Ctrl-C to stop)\n"@,
        ),
{
    let head = "driftwatch — polling "@ + rpc_url;
    let tail = decimal(interval) + "s (Ctrl-C to stop)\n"@;
    lemma_front(head + " every "@, tail);
    lemma_back(head, " every "@ + tail);
    assert(poll_text(rpc_url, interval) =~= head + " every "@ + tail);
    assert(poll_text(rpc_url, interval) =~= head + (" every "@ + tail));
    assert(" every "@ + tail =~= " every "@ + decimal(interval) + "s (Ctrl-C to stop)\n"@);
}

/// The banner of the watch mode names the device that was asked for, or all.
pub proof fn law_watch_banner_names_the_device(dev: Seq<char>)
    ensures
        starts_with(watch_text(Some(dev)), "driftwatch — profiling block device "@ + dev),
        ends_with(watch_text(Some(dev)), dev + " (Ctrl-C to stop)\n"@),
        starts_with(watch_text(None), "driftwatch — profiling ALL block devices"@),
{
    let head = "driftwatch — profiling block device "@;
    let tail = " (Ctrl-C to stop)\n"@;
    lemma_front(head + dev, tail);
    lemma_back(head, dev + tail);
    assert(watch_text(Some(dev)) =~= head + (dev + tail));
    reveal_strlit("driftwatch — profiling ALL block devices (Ctrl-C to stop)\n");
    reveal_strlit("driftwatch — profiling ALL block devices");
    let all = "driftwatch — profiling ALL block devices"@;
    assert(watch_text(None).take(all.len() as int) =~= all);
}

/// The banner of the joined mode names the device, or all, and the endpoint and
/// the length of a window.
pub proof fn law_run_banner_names_both_sides(dev: Seq<char>, rpc_url: Seq<char>, window: nat)
    ensures
        starts_with(
            run_text(Some(dev), rpc_url, window),
            "driftwatch — disk "@ + dev + " + validator "@,
        ),
        starts_with(
            run_text(None, rpc_url, window),
            "driftwatch — disk "@ + "ALL"@ + " + validator "@,
        ),
        ends_with(
            run_text(Some(dev), rpc_url, window),
            " + validator "@ + rpc_url + ", "@ + decimal(window) + "s windows (Ctrl-C to stop)\n"@,
        ),
        ends_with(
            run_text(None, rpc_url, window),
            " + validator "@ + rpc_url + ", "@ + decimal(window) + "s windows (Ctrl-C to stop)\n"@,
        ),
{
    lemma_run_banner(Some(dev), dev, rpc_url, window);
    lemma_run_banner(None, "ALL"@, rpc_url, window);
}

proof fn lemma_run_banner(
    dev: Option<Seq<char>>,
    named: Seq<char>,
    rpc_url: Seq<char>,
    window: nat,
)
    requires
        named == match dev {
            Some(d) => d,
            None => "ALL"@,
        },
    ensures
        starts_with(
            run_text(dev, rpc_url, window),
            "driftwatch — disk "@ + named + " + validator "@,
        ),
        ends_with(
            run_text(dev, rpc_url, window),
            " + validator "@ + rpc_url + ", "@ + decimal(window) + "s windows (Ctrl-C to stop)\n"@,
        ),
{
    let head = "driftwatch — disk "@ + named;
    let end = rpc_url + ", "@ + decimal(window) + "s windows (Ctrl-C to stop)\n"@;
    let tail = " + validator "@ + rpc_url + ", "@ + decimal(window)
        + "s windows (Ctrl-C to stop)\n"@;
    lemma_front(head + " + validator "@, end);
    lemma_back(head, tail);
    assert(run_text(dev, rpc_url, window) =~= head + " + validator "@ + end);
    assert(run_text(dev, rpc_url, window) =~= head + tail);
}

} // verus!
