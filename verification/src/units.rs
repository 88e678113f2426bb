//! Latencies, sizes and rates as the status lines show them.
//!
//! A latency of a millisecond or more is shown as the quotient of two IEEE
//! 754 double precision numbers, so the rounding of that quotient is part of
//! what is shown: 1,150,000 ns is `1.1ms`, because the double next to 1.15
//! lies below it. The arithmetic here is on integers throughout.

use vstd::prelude::*;
use vstd::arithmetic::power2::{lemma2_to64, lemma_pow2_pos, lemma_pow2_strictly_increases, lemma_pow2_unfold, pow2};
use crate::text::{
    decimal, free_of, half_even, is_nearest, law_rounds_to_nearest_even, lemma_free_join,
    lemma_numbers_hold_no_separator, push_decimal, push_tenths, round_half_even, tenths,
};

verus! {

/// 2^52: the smallest significand of a normal double.
pub const MIN_SIGNIFICAND: u64 = 0x10_0000_0000_0000;

/// 2^53: one more than the largest significand of a double.
pub const SIGNIFICAND_LIMIT: u64 = 0x20_0000_0000_0000;

/// Nanoseconds in a millisecond.
pub const NS_PER_MS: u64 = 1_000_000;

/// How many low bits an integer loses when it becomes a double.
pub open spec fn lost_bits(n: nat) -> nat
    decreases n,
{
    if n < SIGNIFICAND_LIMIT {
        0
    } else {
        1 + lost_bits(n / 2)
    }
}

/// The double nearest to the integer `n`, which is itself an integer.
pub open spec fn double_of(n: nat) -> nat {
    half_even(n, pow2(lost_bits(n))) * pow2(lost_bits(n))
}

/// The number of binary places after the point in the double nearest to
/// `n / d`, for `0 < n` and `n / d` below 2^53.
pub open spec fn binary_places(n: nat, d: nat) -> nat
    decreases (if n >= MIN_SIGNIFICAND * d { 0 } else { MIN_SIGNIFICAND * d - n }),
{
    if n == 0 || n >= MIN_SIGNIFICAND * d {
        0
    } else {
        1 + binary_places(2 * n, d)
    }
}

/// The significand of the double nearest to `n / d`: that double is
/// `significand(n, d) / 2^binary_places(n, d)`.
pub open spec fn significand(n: nat, d: nat) -> nat {
    half_even(n * pow2(binary_places(n, d)), d)
}

/// The tenths of a millisecond shown for `ns`: the double nearest to
/// `ns / 1e6`, rounded to one decimal place.
pub open spec fn ms_tenths(ns: nat) -> nat {
    let n = double_of(ns);
    half_even(
        10 * significand(n, NS_PER_MS as nat),
        pow2(binary_places(n, NS_PER_MS as nat)),
    )
}

/// A latency as text.
pub open spec fn latency_text(ns: nat) -> Seq<char> {
    if ns >= NS_PER_MS {
        tenths(ms_tenths(ns)) + "ms"@
    } else {
        decimal(ns / 1_000) + "µs"@
    }
}

/// A request size as text.
pub open spec fn size_text(bytes: nat) -> Seq<char> {
    if bytes >= 1024 * 1024 {
        tenths(half_even(10 * bytes, 1024 * 1024)) + "M"@
    } else {
        tenths(half_even(10 * bytes, 1024)) + "K"@
    }
}

/// The tenths of a mebibyte per second in `bytes` moved over `secs` seconds.
pub open spec fn rate_tenths(bytes: nat, secs: nat) -> nat {
    half_even(10 * bytes, secs * 1_048_576)
}

fn double_of_u64(n: u64) -> (r: u128)
    ensures
        r == double_of(n as nat),
        r <= n + 0x1000,
        n >= NS_PER_MS ==> r >= NS_PER_MS,
{
    let mut m: u64 = n;
    let mut p: u128 = 1;
    let ghost mut k: nat = 0;
    proof {
        lemma2_to64();
    }
    while m >= SIGNIFICAND_LIMIT
        invariant
            p == pow2(k),
            lost_bits(n as nat) == k + lost_bits(m as nat),
            m * p <= n < (m + 1) * p,
            0 < p <= 0x1000,
            p > 1 ==> n >= SIGNIFICAND_LIMIT,
        decreases m,
    {
        proof {
            lemma_pow2_unfold(k + 1);
            assert(p <= 0x7ff) by (nonlinear_arith)
                requires
                    m * p <= n,
                    m >= SIGNIFICAND_LIMIT,
                    n <= u64::MAX,
            ;
            let h = m / 2;
            assert(h * (2 * p) <= n < (h + 1) * (2 * p)) by (nonlinear_arith)
                requires
                    h == m / 2,
                    m * p <= n < (m + 1) * p,
            ;
            k = k + 1;
        }
        m = m / 2;
        p = 2 * p;
    }
    let q: u128 = round_half_even(n as u128, p);
    proof {
        lemma_half_even_near(n as nat, p as nat);
    }
    q * p
}

/// Appends a latency.
pub fn push_latency(out: &mut String, ns: u64)
    ensures
        final(out)@ == old(out)@ + latency_text(ns as nat),
{
    if ns >= NS_PER_MS {
        let n: u128 = double_of_u64(ns);
        let mut m: u128 = n;
        let mut p: u128 = 1;
        let ghost mut k: nat = 0;
        proof {
            lemma2_to64();
        }
        while m < MIN_SIGNIFICAND as u128 * NS_PER_MS as u128
            invariant
                p == pow2(k),
                m == n * p,
                binary_places(n as nat, NS_PER_MS as nat) == k + binary_places(
                    m as nat,
                    NS_PER_MS as nat,
                ),
                NS_PER_MS <= n <= u64::MAX + 0x1000,
                p * NS_PER_MS <= m,
                0 < p,
                m < SIGNIFICAND_LIMIT * NS_PER_MS,
            decreases SIGNIFICAND_LIMIT * NS_PER_MS - m,
        {
            proof {
                lemma_pow2_unfold(k + 1);
                k = k + 1;
                assert(n * (2 * p) == 2 * (n * p)) by (nonlinear_arith);
            }
            m = 2 * m;
            p = 2 * p;
        }
        let significand: u128 = round_half_even(m, NS_PER_MS as u128);
        proof {
            lemma_half_even_near(m as nat, NS_PER_MS as nat);
            assert(significand <= SIGNIFICAND_LIMIT);
        }
        let t: u128 = round_half_even(10 * significand, p);
        push_tenths(out, t as u64);
        out.append("ms");
    } else {
        push_decimal(out, ns / 1_000);
        out.append("µs");
    }
    assert(out@ =~= old(out)@ + latency_text(ns as nat));
}

/// Appends a request size.
pub fn push_size(out: &mut String, bytes: u32)
    ensures
        final(out)@ == old(out)@ + size_text(bytes as nat),
{
    let ten_times: u128 = 10 * bytes as u128;
    if bytes >= 1024 * 1024 {
        let t: u128 = round_half_even(ten_times, 1024 * 1024);
        push_tenths(out, t as u64);
        out.append("M");
    } else {
        let t: u128 = round_half_even(ten_times, 1024);
        push_tenths(out, t as u64);
        out.append("K");
    }
    assert(out@ =~= old(out)@ + size_text(bytes as nat));
}

/// Appends a transfer rate in mebibytes per second.
pub fn push_rate(out: &mut String, bytes: u64, secs: u64)
    requires
        secs > 0,
    ensures
        final(out)@ == old(out)@ + tenths(rate_tenths(bytes as nat, secs as nat)),
{
    let d: u128 = secs as u128 * 1_048_576;
    let t: u128 = round_half_even(10 * bytes as u128, d);
    assert(t <= bytes) by {
        lemma_half_even_near(10 * bytes as nat, d as nat);
        assert(t <= bytes) by (nonlinear_arith)
            requires
                2 * (t * d) <= 2 * (10 * bytes) + d,
                d >= 1_048_576,
        ;
    }
    push_tenths(out, t as u64);
}

/// A latency for people: microseconds below a millisecond, else milliseconds
/// with one decimal.
pub fn latency(ns: u64) -> (r: String)
    ensures
        r@ == latency_text(ns as nat),
{
    let mut out = String::new();
    push_latency(&mut out, ns);
    assert(out@ =~= latency_text(ns as nat));
    out
}

/// A request size for people: kibibytes below a mebibyte, else mebibytes, with
/// one decimal.
pub fn size(bytes: u32) -> (r: String)
    ensures
        r@ == size_text(bytes as nat),
{
    let mut out = String::new();
    push_size(&mut out, bytes);
    assert(out@ =~= size_text(bytes as nat));
    out
}

/// The tenth of a millisecond that is shown is never further than half a tenth
/// from the latency itself, for every latency below 2^53 ns (104 days). Beyond
/// that a double no longer holds every integer, and the distance stays below
/// 53 microseconds.
pub proof fn law_latency_shown_is_nearest_tenth(ns: u64)
    requires
        ns > 0,
    ensures
        ns < SIGNIFICAND_LIMIT ==> ns - 50_000 <= ms_tenths(ns as nat) * 100_000 <= ns + 50_000,
        ns - 53_000 < ms_tenths(ns as nat) * 100_000 < ns + 53_000,
{
    lemma2_to64();
    let lost = pow2(lost_bits(ns as nat));
    lemma_lost_bits(ns as nat);
    lemma_half_even_near(ns as nat, lost);
    let n = double_of(ns as nat);
    if ns < SIGNIFICAND_LIMIT {
        assert(n == ns);
        lemma_places_at_least(n, NS_PER_MS as nat, 18);
        lemma_tenths_near(n, 19);
    } else {
        lemma_places_at_least(n, NS_PER_MS as nat, 7);
        lemma_tenths_near(n, 8);
    }
}

/// How far the shown tenths can be from the double that is shown, by the number
/// of its binary places.
proof fn lemma_tenths_near(n: nat, least_places: nat)
    requires
        n > 0,
        binary_places(n, NS_PER_MS as nat) >= least_places,
        least_places == 8 || least_places == 19,
    ensures
        ({
            let t = half_even(
                10 * significand(n, NS_PER_MS as nat),
                pow2(binary_places(n, NS_PER_MS as nat)),
            );
            &&& n - 51_954 < t * 100_000 < n + 51_954
            &&& least_places == 19 ==> n - 50_001 < t * 100_000 < n + 50_001
        }),
{
    lemma2_to64();
    let d = NS_PER_MS as nat;
    let places = binary_places(n, d);
    let p = pow2(places);
    lemma_pow2_pos(places);
    if places > least_places {
        lemma_pow2_strictly_increases(least_places, places);
    }
    let sig = significand(n, d);
    let t = half_even(10 * sig, p);
    lemma_half_even_near(n * p, d);
    lemma_half_even_near(10 * sig, p);
    let shown = t * p;
    assert(n - 51_954 < t * 100_000 < n + 51_954) by (nonlinear_arith)
        requires
            shown == t * p,
            p >= 256,
            2 * (10 * sig) - p <= 2 * shown <= 2 * (10 * sig) + p,
            2 * (n * p) - 1_000_000 <= 2 * (sig * 1_000_000) <= 2 * (n * p) + 1_000_000,
    ;
    if least_places == 19 {
        assert(n - 50_001 < t * 100_000 < n + 50_001) by (nonlinear_arith)
            requires
                shown == t * p,
                p >= 524_288,
                2 * (10 * sig) - p <= 2 * shown <= 2 * (10 * sig) + p,
                2 * (n * p) - 1_000_000 <= 2 * (sig * 1_000_000) <= 2 * (n * p) + 1_000_000,
        ;
    }
}

/// A 64-bit integer loses at most eleven bits.
proof fn lemma_lost_bits(n: nat)
    requires
        n <= u64::MAX,
    ensures
        0 < pow2(lost_bits(n)) <= 2048,
        n < SIGNIFICAND_LIMIT ==> lost_bits(n) == 0,
{
    lemma2_to64();
    reveal_with_fuel(lost_bits, 13);
    assert(lost_bits(n) <= 11);
    lemma_pow2_pos(lost_bits(n));
    if lost_bits(n) < 11 {
        lemma_pow2_strictly_increases(lost_bits(n), 11);
    }
}

/// A size is shown to the nearest tenth of its unit, for every size.
pub proof fn law_size_shown_is_nearest_tenth(bytes: nat)
    ensures
        10 * bytes - 512 <= half_even(10 * bytes, 1024) * 1024 <= 10 * bytes + 512,
        10 * bytes - 512 * 1024 <= half_even(10 * bytes, 1024 * 1024) * (1024 * 1024) <= 10 * bytes
            + 512 * 1024,
{
    lemma_half_even_near(10 * bytes, 1024);
    lemma_half_even_near(10 * bytes, 1024 * 1024);
}

proof fn lemma_places_at_least(n: nat, d: nat, j: nat)
    requires
        n > 0,
        n * pow2(j) < MIN_SIGNIFICAND * d,
    ensures
        binary_places(n, d) > j,
    decreases j,
{
    lemma2_to64();
    lemma_pow2_pos(j);
    assert(n <= n * pow2(j)) by (nonlinear_arith)
        requires
            pow2(j) > 0,
    ;
    if j > 0 {
        lemma_pow2_unfold(j);
        let half = pow2((j - 1) as nat);
        assert((2 * n) * half == n * (2 * half)) by (nonlinear_arith);
        lemma_places_at_least(2 * n, d, (j - 1) as nat);
    }
}

/// The rounded quotient is within half a divisor of the exact one.
pub proof fn lemma_half_even_near(n: nat, d: nat)
    requires
        d > 0,
    ensures
        2 * n - d <= 2 * (half_even(n, d) * d) <= 2 * n + d,
        d == 1 ==> half_even(n, d) == n,
{
    let q = n / d;
    let r = n % d;
    assert(n == q * d + r && 0 <= r < d) by (nonlinear_arith)
        requires
            d > 0,
            q == n / d,
            r == n % d,
    ;
    assert((q + 1) * d == q * d + d) by (nonlinear_arith);
}

/// Whether `n` is the double nearest to `ns`: `ns` itself below 2^53, and above
/// that the nearest number with 53 significant bits.
pub open spec fn is_double(ns: nat, n: nat, lost: nat) -> bool {
    if ns < 0x20_0000_0000_0000 {
        n == ns
    } else {
        exists|kept: nat| #[trigger]
            is_nearest(ns, pow2(lost), kept) && 0x10_0000_0000_0000 <= kept <= 0x20_0000_0000_0000
                && n == kept * pow2(lost)
    }
}

/// What is shown of a latency in milliseconds comes of three roundings, each to
/// the nearest and from the middle to the even: to a double, to the double
/// nearest to a millionth of it, and to a tenth.
pub proof fn law_latency_is_rounded_as_doubles_are(ns: u64) -> (r: (nat, nat, nat, nat))
    requires
        ns > 0,
    ensures
        ({
            let (lost, n, places, bits) = r;
            &&& is_double(ns as nat, n, lost)
            &&& 0x10_0000_0000_0000 <= bits <= 0x20_0000_0000_0000
            &&& is_nearest(n * pow2(places), 1_000_000, bits)
            &&& is_nearest(10 * bits, pow2(places), ms_tenths(ns as nat))
        }),
{
    lemma2_to64();
    let lost = lost_bits(ns as nat);
    lemma_lost_bits(ns as nat);
    let n = double_of(ns as nat);
    law_rounds_to_nearest_even(ns as nat, pow2(lost));
    lemma_half_even_near(ns as nat, pow2(lost));
    let kept = half_even(ns as nat, pow2(lost));
    if ns >= SIGNIFICAND_LIMIT {
        lemma_lost_keeps_53_bits(ns as nat);
        let p = pow2(lost);
        assert(MIN_SIGNIFICAND <= kept <= SIGNIFICAND_LIMIT) by (nonlinear_arith)
            requires
                p > 0,
                MIN_SIGNIFICAND * p <= ns < SIGNIFICAND_LIMIT * p,
                2 * ns - p <= 2 * (kept * p) <= 2 * ns + p,
        ;
        assert(is_nearest(ns as nat, pow2(lost), kept));
    } else {
        assert(n == ns);
    }
    let d = NS_PER_MS as nat;
    assert(0 < n < MIN_SIGNIFICAND * d);
    lemma_places_bounds(n, d);
    let places = binary_places(n, d);
    let bits = significand(n, d);
    law_rounds_to_nearest_even(n * pow2(places), d);
    lemma_pow2_pos(places);
    law_rounds_to_nearest_even(10 * bits, pow2(places));
    (lost, n, places, bits)
}

proof fn lemma_lost_keeps_53_bits(n: nat)
    requires
        n >= SIGNIFICAND_LIMIT,
    ensures
        MIN_SIGNIFICAND * pow2(lost_bits(n)) <= n < SIGNIFICAND_LIMIT * pow2(lost_bits(n)),
    decreases n,
{
    lemma2_to64();
    let h = n / 2;
    lemma_pow2_unfold(lost_bits(n));
    if h >= SIGNIFICAND_LIMIT {
        lemma_lost_keeps_53_bits(h);
    } else {
        assert(lost_bits(h) == 0);
    }
}

proof fn lemma_places_bounds(n: nat, d: nat)
    requires
        0 < n < MIN_SIGNIFICAND * d,
    ensures
        MIN_SIGNIFICAND * d <= n * pow2(binary_places(n, d)) < 2 * (MIN_SIGNIFICAND * d),
    decreases MIN_SIGNIFICAND * d - n,
{
    let places = binary_places(n, d);
    let fewer = binary_places(2 * n, d);
    assert(places == fewer + 1);
    lemma_pow2_unfold(places);
    let half = pow2(fewer);
    assert(pow2(places) == 2 * half);
    assert((2 * n) * half == n * (2 * half)) by (nonlinear_arith);
    if 2 * n < MIN_SIGNIFICAND * d {
        lemma_places_bounds(2 * n, d);
    } else {
        assert(fewer == 0);
        assert(half == 1) by {
            lemma2_to64();
        }
        assert((2 * n) * half == 2 * n) by (nonlinear_arith)
            requires
                half == 1,
        ;
    }
}

/// A latency of a millisecond or more is shown in milliseconds with one decimal;
/// a shorter one in whole microseconds, as many as have passed.
pub proof fn law_latency_has_its_unit(ns: nat, us: nat)
    requires
        us * 1_000 <= ns < us * 1_000 + 1_000,
    ensures
        ns < 1_000_000 ==> latency_text(ns) == decimal(us) + "µs"@,
        ns >= 1_000_000 ==> latency_text(ns) == tenths(ms_tenths(ns)) + "ms"@,
{
}

/// A size is shown in mebibytes where it is one or more, else in kibibytes,
/// rounded to the nearest tenth and from the middle to the even one.
pub proof fn law_size_has_its_unit(bytes: nat) -> (shown: nat)
    ensures
        bytes < 1_048_576 ==> is_nearest(10 * bytes, 1_024, shown) && size_text(bytes) == tenths(
            shown,
        ) + "K"@,
        bytes >= 1_048_576 ==> is_nearest(10 * bytes, 1_048_576, shown) && size_text(bytes)
            == tenths(shown) + "M"@,
{
    law_rounds_to_nearest_even(10 * bytes, 1_024);
    law_rounds_to_nearest_even(10 * bytes, 1_048_576);
    if bytes < 1_048_576 {
        half_even(10 * bytes, 1_024)
    } else {
        half_even(10 * bytes, 1_048_576)
    }
}

/// A rate is the mebibytes per second to the nearest tenth, from the middle to
/// the even one.
pub proof fn law_rate_is_mebibytes_per_second(bytes: nat, secs: nat)
    requires
        secs > 0,
    ensures
        is_nearest(10 * bytes, secs * 1_048_576, rate_tenths(bytes, secs)),
{
    law_rounds_to_nearest_even(10 * bytes, secs * 1_048_576);
}

/// Latencies and sizes hold neither bars nor spaces.
pub proof fn lemma_units_hold_no_separator(n: nat, separator: char)
    requires
        separator == '|' || separator == ' ',
    ensures
        free_of(latency_text(n), separator),
        free_of(size_text(n), separator),
{
    assert(free_of("ms"@, separator) && free_of("µs"@, separator)) by {
        reveal_strlit("ms");
        reveal_strlit("µs");
    }
    assert(free_of("K"@, separator) && free_of("M"@, separator)) by {
        reveal_strlit("K");
        reveal_strlit("M");
    }
    let us = n / 1_000;
    let ms = ms_tenths(n);
    let mebi = half_even(10 * n, 1024 * 1024);
    let kibi = half_even(10 * n, 1024);
    lemma_numbers_hold_no_separator(us, separator);
    lemma_numbers_hold_no_separator(ms, separator);
    lemma_numbers_hold_no_separator(mebi, separator);
    lemma_numbers_hold_no_separator(kibi, separator);
    lemma_free_join(decimal(us), "µs"@, separator);
    lemma_free_join(tenths(ms), "ms"@, separator);
    lemma_free_join(tenths(mebi), "M"@, separator);
    lemma_free_join(tenths(kibi), "K"@, separator);
}

} // verus!
