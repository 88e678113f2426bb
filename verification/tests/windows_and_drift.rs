use driftwatch::disk;
use driftwatch::disk::{compact_stats, format_stats, total_drops, DropWatch};
use driftwatch::drift::{Alert, DriftRule, Lag, MEMORY};
use driftwatch::event::{DiskEvent, RW_OTHER, RW_READ, RW_WRITE};
use driftwatch::window::{Window, WindowStats};

fn event(latency_ns: u64, bytes: u32, rw: u8, error: i32) -> DiskEvent {
    DiskEvent { sector: 1, latency_ns, dev: 259 << 20, bytes, error, rw, _pad: [0; 3] }
}

#[test]
fn event_lines() {
    assert_eq!(disk::line(&event(812_000, 4096, RW_WRITE, 0)), "disk 259:0 W 4.0K 812µs");
    assert_eq!(
        disk::line(&event(3_100_000, 131_072, RW_READ, -5)),
        "disk 259:0 R 128.0K 3.1ms ERR=-5"
    );
    assert_eq!(disk::line(&event(0, 0, RW_OTHER, 0)), "disk 259:0 O 0.0K 0µs");
    assert_eq!(disk::line(&event(0, 0, 77, 1)), "disk 259:0 O 0.0K 0µs ERR=1");
}

#[test]
fn drops_are_reported_only_when_they_grow() {
    let mut w = DropWatch::new();
    assert_eq!(w.observe(&vec![0, 0, 0]), None);
    assert_eq!(
        w.observe(&vec![1, 2, 0]),
        Some("WARN: ringbuf dropped 3 events (total 3)".to_string())
    );
    assert_eq!(w.observe(&vec![1, 2, 0]), None);
    assert_eq!(
        w.observe(&vec![4, 2, 1]),
        Some("WARN: ringbuf dropped 4 events (total 7)".to_string())
    );
    assert_eq!(w.observe(&vec![0, 2, 0]), None);
    assert_eq!(
        w.observe(&vec![8]),
        Some("WARN: ringbuf dropped 1 events (total 8)".to_string())
    );
}

#[test]
fn drop_counters_wrap_around() {
    assert_eq!(total_drops(&vec![]), 0);
    assert_eq!(total_drops(&vec![5, 6]), 11);
    assert_eq!(total_drops(&vec![u64::MAX, 3]), 2);
}

#[test]
fn empty_window_is_all_zero() {
    let mut w = Window::new();
    let s = w.close(3);
    assert_eq!(
        s,
        WindowStats {
            window_secs: 3,
            reqs: 0,
            writes: 0,
            reads: 0,
            others: 0,
            bytes: 0,
            errors: 0,
            p50_ns: 0,
            p99_ns: 0,
            max_ns: 0,
        }
    );
}

#[test]
fn window_counts_and_percentiles() {
    let mut w = Window::new();
    for i in (1..=200u64).rev() {
        let rw = match i % 4 {
            0 => RW_READ,
            1 | 2 => RW_WRITE,
            _ => RW_OTHER,
        };
        w.record(&event(i * 1_000, 4096, rw, if i == 7 { -5 } else { 0 }));
    }
    let s = w.close(2);
    assert_eq!(s.reqs, 200);
    assert_eq!(s.reads, 50);
    assert_eq!(s.writes, 100);
    assert_eq!(s.others, 50);
    assert_eq!(s.bytes, 200 * 4096);
    assert_eq!(s.errors, 1);
    assert_eq!(s.p50_ns, 100_000);
    assert_eq!(s.p99_ns, 198_000);
    assert_eq!(s.max_ns, 200_000);
    assert_eq!(w.close(2).reqs, 0);
}

#[test]
fn percentiles_of_few_requests() {
    let mut w = Window::new();
    w.record(&event(50_000_000, 512, RW_READ, 0));
    let s = w.close(1);
    assert_eq!((s.p50_ns, s.p99_ns, s.max_ns), (50_000_000, 50_000_000, 50_000_000));
    w.record(&event(9, 512, RW_READ, 0));
    w.record(&event(1, 512, RW_READ, 0));
    w.record(&event(5, 512, RW_READ, 0));
    let s = w.close(1);
    assert_eq!((s.p50_ns, s.p99_ns, s.max_ns), (5, 9, 9));
}

#[test]
fn a_single_slow_read_stays_visible() {
    let mut w = Window::new();
    for _ in 0..99 {
        w.record(&event(100_000, 4096, RW_WRITE, 0));
    }
    w.record(&event(50_000_000, 4096, RW_READ, 0));
    let s = w.close(3);
    assert_eq!(s.p99_ns, 100_000);
    assert_eq!(s.max_ns, 50_000_000);
}

fn stats(p99_ns: u64) -> WindowStats {
    WindowStats {
        window_secs: 3,
        reqs: 23_633,
        writes: 23_633,
        reads: 0,
        others: 0,
        bytes: 23_633 * 4_096,
        errors: 0,
        p50_ns: 100_000,
        p99_ns,
        max_ns: 61_000_000,
    }
}

#[test]
fn window_lines() {
    assert_eq!(
        compact_stats(&stats(59_200_000)),
        "disk p99 59.2ms | 23,633 reqs | 30.8 MB/s"
    );
    assert_eq!(
        format_stats(&stats(1_900_000)),
        "disk p50 100µs | p99 1.9ms | max 61.0ms | 23,633 reqs | 7,877 IOPS | 30.8 MB/s"
    );
    let failing = WindowStats { errors: 1_234, ..stats(1_900_000) };
    assert_eq!(
        format_stats(&failing),
        "disk p50 100µs | p99 1.9ms | max 61.0ms | 23,633 reqs | 7,877 IOPS | 30.8 MB/s | 1,234 errors"
    );
}

fn calm(rule: &mut DriftRule, n: usize) {
    for _ in 0..n {
        assert_eq!(rule.observe(213_000, Lag::Slots(1)), None);
    }
}

#[test]
fn third_hot_window_with_lag_fires_once() {
    let mut rule = DriftRule::new(20);
    calm(&mut rule, 5);
    assert_eq!(rule.observe(40_600_000, Lag::Slots(9)), None);
    assert_eq!(rule.observe(40_600_000, Lag::Slots(9)), None);
    let alert = rule.observe(40_600_000, Lag::Slots(9)).unwrap();
    assert_eq!(
        alert,
        Alert {
            p99_ns: 40_600_000,
            baseline_ns: 213_000,
            windows: 3,
            lag: Lag::Slots(9),
            norm: Some(1),
        }
    );
    assert_eq!(
        alert.line(),
        "!! DRIFT: disk p99 40.6ms = 190x baseline 213µs for 3 windows, vote lag 9 vs norm 1. disk is the lead signal"
    );
    for _ in 0..10 {
        assert_eq!(rule.observe(40_600_000, Lag::Slots(50)), None);
    }
}

#[test]
fn rule_is_armed_again_after_a_normal_window() {
    let mut rule = DriftRule::new(20);
    calm(&mut rule, 3);
    for round in 0..2 {
        assert_eq!(rule.observe(9_000_000, Lag::Slots(4)), None);
        assert_eq!(rule.observe(9_000_000, Lag::Slots(4)), None);
        assert!(rule.observe(9_000_000, Lag::Slots(4)).is_some(), "round {}", round);
        assert_eq!(rule.observe(9_000_000, Lag::Slots(4)), None);
        calm(&mut rule, 1);
    }
}

#[test]
fn storm_without_victim_is_silent() {
    let mut rule = DriftRule::new(20);
    calm(&mut rule, 5);
    for _ in 0..12 {
        assert_eq!(rule.observe(59_000_000, Lag::Slots(1)), None);
        assert_eq!(rule.observe(59_000_000, Lag::Slots(3)), None);
    }
    assert!(rule.observe(59_000_000, Lag::Slots(4)).is_some());
}

#[test]
fn lone_spike_is_silent() {
    let mut rule = DriftRule::new(20);
    for _ in 0..5 {
        calm(&mut rule, 2);
        assert_eq!(rule.observe(59_000_000, Lag::Slots(90)), None);
        assert_eq!(rule.observe(59_000_000, Lag::Dead), None);
    }
}

#[test]
fn lag_without_hot_disk_is_silent() {
    let mut rule = DriftRule::new(20);
    calm(&mut rule, 5);
    for _ in 0..3 {
        assert_eq!(rule.observe(213_000, Lag::Slots(900)), None);
        assert_eq!(rule.observe(800_000, Lag::Dead), None);
    }
}

#[test]
fn floor_and_factor_are_strict() {
    let mut rule = DriftRule::new(20);
    calm(&mut rule, 4);
    for _ in 0..5 {
        assert_eq!(rule.observe(1_000_000, Lag::Dead), None);
    }
    let mut rule = DriftRule::new(20);
    for _ in 0..4 {
        assert_eq!(rule.observe(500_000, Lag::Slots(0)), None);
    }
    for _ in 0..2 {
        assert_eq!(rule.observe(2_000_001, Lag::Dead), None);
    }
    assert!(rule.observe(2_000_001, Lag::Dead).is_some());
    let mut rule = DriftRule::new(20);
    for _ in 0..9 {
        assert_eq!(rule.observe(500_000, Lag::Slots(0)), None);
    }
    for _ in 0..5 {
        assert_eq!(rule.observe(2_000_000, Lag::Dead), None);
    }
}

#[test]
fn dead_rpc_is_the_worst_case() {
    let mut rule = DriftRule::new(20);
    assert_eq!(rule.observe(300_000, Lag::Unknown), None);
    for _ in 0..2 {
        assert_eq!(rule.observe(5_000_000, Lag::Dead), None);
    }
    let alert = rule.observe(5_000_000, Lag::Dead).unwrap();
    assert_eq!(
        alert.line(),
        "!! DRIFT: disk p99 5.0ms = 16x baseline 300µs for 3 windows, vote lag DOWN vs norm unknown. disk is the lead signal"
    );
}

#[test]
fn nothing_is_judged_without_a_baseline_or_a_sample() {
    let mut rule = DriftRule::new(20);
    assert_eq!(rule.observe(59_000_000, Lag::Dead), None);
    let mut rule = DriftRule::new(20);
    assert_eq!(rule.observe(0, Lag::Slots(1)), None);
    for _ in 0..5 {
        assert_eq!(rule.observe(0, Lag::Dead), None);
    }
    let mut rule = DriftRule::new(20);
    assert_eq!(rule.observe(300_000, Lag::Unknown), None);
    for _ in 0..6 {
        assert_eq!(rule.observe(9_000_000, Lag::Unknown), None);
        assert_eq!(rule.observe(9_000_000, Lag::Slots(99)), None);
    }
}

#[test]
fn only_recent_normal_windows_count() {
    let mut rule = DriftRule::new(3);
    for _ in 0..9 {
        assert_eq!(rule.observe(2_000_000, Lag::Slots(7)), None);
    }
    for _ in 0..3 {
        assert_eq!(rule.observe(300_000, Lag::Slots(1)), None);
    }
    for _ in 0..2 {
        assert_eq!(rule.observe(1_300_000, Lag::Slots(4)), None);
    }
    let alert = rule.observe(1_300_000, Lag::Slots(4)).unwrap();
    assert_eq!((alert.baseline_ns, alert.norm), (300_000, Some(1)));
}

#[test]
fn baseline_is_the_median() {
    let mut rule = DriftRule::new(20);
    for p99 in [900_000u64, 100_000, 300_000, 200_000] {
        assert_eq!(rule.observe(p99, Lag::Slots(p99 as i64 / 100_000)), None);
    }
    for _ in 0..2 {
        assert_eq!(rule.observe(50_000_000, Lag::Slots(5)), None);
    }
    let alert = rule.observe(50_000_000, Lag::Slots(5)).unwrap();
    assert_eq!((alert.baseline_ns, alert.norm), (200_000, Some(2)));
    let mut rule = DriftRule::new(0);
    for _ in 0..5 {
        assert_eq!(rule.observe(50_000_000, Lag::Dead), None);
    }
}

#[test]
fn extreme_lags_do_not_overflow() {
    let mut rule = DriftRule::new(20);
    assert_eq!(rule.observe(300_000, Lag::Slots(i64::MIN)), None);
    for _ in 0..2 {
        assert_eq!(rule.observe(u64::MAX, Lag::Slots(i64::MAX)), None);
    }
    assert!(rule.observe(u64::MAX, Lag::Slots(i64::MAX)).is_some());
}

#[test]
fn trouble_does_not_become_the_new_normal() {
    let mut rule = DriftRule::new(3);
    calm(&mut rule, 3);
    for _ in 0..50 {
        assert_eq!(rule.observe(59_000_000, Lag::Slots(2)), None);
    }
    let alert = rule.observe(59_000_000, Lag::Slots(4)).unwrap();
    assert_eq!((alert.baseline_ns, alert.norm, alert.windows), (213_000, Some(1), 51));
}

#[test]
fn summaries_are_ordered() {
    let mut w = Window::new();
    let mut x: u64 = 88_172_645_463_325_252;
    for round in 1..60u64 {
        for _ in 0..round {
            x ^= x << 13;
            x ^= x >> 7;
            x ^= x << 17;
            w.record(&event(x % 1_000, 512, (x % 5) as u8, (x % 3) as i32));
        }
        let s = w.close(1);
        assert_eq!(s.reqs, round);
        assert!(s.p50_ns <= s.p99_ns && s.p99_ns <= s.max_ns);
        assert_eq!(s.reads + s.writes + s.others, s.reqs);
        assert!(s.errors <= s.reqs);
    }
}

#[test]
fn memory_holds_the_last_windows() {
    let mut rule = DriftRule::new(MEMORY);
    for _ in 0..MEMORY {
        assert_eq!(rule.observe(900_000, Lag::Slots(9)), None);
    }
    calm(&mut rule, MEMORY / 2);
    for _ in 0..2 {
        assert_eq!(rule.observe(50_000_000, Lag::Dead), None);
    }
    let alert = rule.observe(50_000_000, Lag::Dead).unwrap();
    assert_eq!((alert.baseline_ns, alert.norm), (213_000, Some(1)));
}
