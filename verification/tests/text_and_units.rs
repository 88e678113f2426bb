use driftwatch::text::{
    chars_of, commas, push_commas, push_decimal, push_signed, push_tenths, push_two_digits,
    round_half_even,
};
use driftwatch::units::{latency, push_rate, size};

#[test]
fn commas_before_every_third_digit_from_the_right() {
    assert_eq!(commas(0), "0");
    assert_eq!(commas(7), "7");
    assert_eq!(commas(999), "999");
    assert_eq!(commas(1_000), "1,000");
    assert_eq!(commas(1_084), "1,084");
    assert_eq!(commas(22_781), "22,781");
    assert_eq!(commas(519_764), "519,764");
    assert_eq!(commas(1_000_001), "1,000,001");
    assert_eq!(commas(u64::MAX), "18,446,744,073,709,551,615");
}

#[test]
fn commas_only_add_separators() {
    let mut n: u64 = 1;
    for i in 0..60u64 {
        n = n.wrapping_mul(7).wrapping_add(i);
        let shown = commas(n);
        assert_eq!(shown.replace(',', ""), n.to_string());
        for (i, c) in shown.chars().enumerate() {
            assert_eq!(c == ',', (shown.len() - i) % 4 == 0);
        }
    }
}

#[test]
fn numbers_are_appended() {
    let mut s = String::from("n=");
    push_decimal(&mut s, 0);
    s.push(' ');
    push_decimal(&mut s, u64::MAX);
    s.push(' ');
    push_signed(&mut s, i64::MIN);
    s.push(' ');
    push_signed(&mut s, -5);
    s.push(' ');
    push_signed(&mut s, 9);
    s.push(' ');
    push_two_digits(&mut s, 4);
    s.push(' ');
    push_two_digits(&mut s, 59);
    s.push(' ');
    push_tenths(&mut s, 308);
    s.push(' ');
    push_tenths(&mut s, 7);
    s.push(' ');
    push_commas(&mut s, 12_345);
    assert_eq!(
        s,
        "n=0 18446744073709551615 -9223372036854775808 -5 9 04 59 30.8 0.7 12,345"
    );
}

#[test]
fn characters_in_order() {
    assert_eq!(chars_of("a:µ—"), vec!['a', ':', 'µ', '—']);
    assert!(chars_of("").is_empty());
}

#[test]
fn halves_go_to_the_even_neighbour() {
    assert_eq!(round_half_even(5, 2), 2);
    assert_eq!(round_half_even(7, 2), 4);
    assert_eq!(round_half_even(8, 3), 3);
    assert_eq!(round_half_even(7, 3), 2);
    assert_eq!(round_half_even(0, 9), 0);
}

#[test]
fn latency_in_micro_and_milliseconds() {
    assert_eq!(latency(0), "0µs");
    assert_eq!(latency(999), "0µs");
    assert_eq!(latency(812_345), "812µs");
    assert_eq!(latency(999_999), "999µs");
    assert_eq!(latency(1_000_000), "1.0ms");
    assert_eq!(latency(3_100_000), "3.1ms");
    assert_eq!(latency(40_600_000), "40.6ms");
    assert_eq!(latency(59_200_000), "59.2ms");
}

#[test]
fn latency_follows_the_double_next_to_a_half() {
    assert_eq!(latency(1_150_000), "1.1ms");
    assert_eq!(latency(1_050_000), "1.1ms");
    assert_eq!(latency(1_250_000), "1.2ms");
    assert_eq!(latency(1_350_000), "1.4ms");
}

fn float_latency(ns: u64) -> String {
    if ns >= 1_000_000 {
        format!("{:.1}ms", ns as f64 / 1e6)
    } else {
        format!("{}µs", ns / 1_000)
    }
}

fn float_size(bytes: u32) -> String {
    if bytes >= 1024 * 1024 {
        format!("{:.1}M", bytes as f64 / (1024.0 * 1024.0))
    } else {
        format!("{:.1}K", bytes as f64 / 1024.0)
    }
}

#[test]
fn latency_agrees_with_floating_point_at_every_half() {
    for k in 0..200_000u64 {
        let ns = 1_000_000 + 50_000 * k;
        assert_eq!(latency(ns), float_latency(ns));
    }
}

#[test]
fn latency_agrees_with_floating_point_everywhere() {
    let mut x: u64 = 0x9e37_79b9_7f4a_7c15;
    for i in 0..200_000u64 {
        x ^= x << 13;
        x ^= x >> 7;
        x ^= x << 17;
        let ns = x >> (i % 64);
        assert_eq!(latency(ns), float_latency(ns));
    }
    for bit in 50..64u64 {
        let base = 1u64 << bit;
        for d in 0..3_000u64 {
            assert_eq!(latency(base + d), float_latency(base + d));
            assert_eq!(latency(base - d), float_latency(base - d));
        }
    }
    for d in 0..5_000u64 {
        assert_eq!(latency(u64::MAX - d), float_latency(u64::MAX - d));
    }
}

#[test]
fn latency_shown_is_the_nearest_tenth() {
    for ns in [1_000_000u64, 1_049_999, 1_050_001, 7_777_777, 123_456_789_012] {
        let shown = latency(ns);
        let tenths: u64 = shown.trim_end_matches("ms").replace('.', "").parse().unwrap();
        assert!((tenths * 100_000).abs_diff(ns) <= 50_000);
    }
}

#[test]
fn size_in_kibi_and_mebibytes() {
    assert_eq!(size(0), "0.0K");
    assert_eq!(size(512), "0.5K");
    assert_eq!(size(256), "0.2K");
    assert_eq!(size(768), "0.8K");
    assert_eq!(size(4096), "4.0K");
    assert_eq!(size(131_072), "128.0K");
    assert_eq!(size(1_048_575), "1024.0K");
    assert_eq!(size(1_048_576), "1.0M");
    assert_eq!(size(u32::MAX), "4096.0M");
}

#[test]
fn size_agrees_with_floating_point() {
    for b in 0..300_000u32 {
        assert_eq!(size(b), float_size(b));
    }
    for k in 0..200_000u32 {
        let b = k * 21_001;
        assert_eq!(size(b), float_size(b));
    }
}

#[test]
fn rate_in_mebibytes_per_second() {
    let mut s = String::new();
    push_rate(&mut s, 23_633 * 4_096, 3);
    assert_eq!(s, "30.8");
    let mut s = String::new();
    push_rate(&mut s, 0, 1);
    assert_eq!(s, "0.0");
    let mut s = String::new();
    push_rate(&mut s, u64::MAX, 1);
    assert_eq!(s, "17592186044416.0");
}
