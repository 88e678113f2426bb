//! Block device numbers: `major:minor` on the command line, one packed 32-bit
//! number in the kernel's records.

use vstd::prelude::*;
use crate::text::{
    all_digits, chars_of, decimal, decimal_value, digit, free_of, lemma_decimal_chars, push_decimal,
};

verus! {

/// Why a number was not read.
#[derive(Debug, Clone, Copy, PartialEq, Eq, Structural)]
pub enum NumberError {
    Empty,
    InvalidDigit,
    TooLarge,
}

/// Why a device was not read.
#[derive(Debug, Clone, Copy, PartialEq, Eq, Structural)]
pub enum DevError {
    MissingColon,
    Number(NumberError),
}

/// The characters with the Unicode property `White_Space`.
pub open spec fn is_space_char(c: char) -> bool {
    ||| '\u{9}' <= c <= '\u{d}'
    ||| c == ' '
    ||| c == '\u{85}'
    ||| c == '\u{a0}'
    ||| c == '\u{1680}'
    ||| '\u{2000}' <= c <= '\u{200a}'
    ||| c == '\u{2028}'
    ||| c == '\u{2029}'
    ||| c == '\u{202f}'
    ||| c == '\u{205f}'
    ||| c == '\u{3000}'
}

/// The text without white space in front.
pub open spec fn trim_front(s: Seq<char>) -> Seq<char>
    decreases s.len(),
{
    if s.len() > 0 && is_space_char(s[0]) {
        trim_front(s.drop_first())
    } else {
        s
    }
}

/// The text without white space at the end.
pub open spec fn trim_back(s: Seq<char>) -> Seq<char>
    decreases s.len(),
{
    if s.len() > 0 && is_space_char(s.last()) {
        trim_back(s.drop_last())
    } else {
        s
    }
}

/// The text without white space on either side.
pub open spec fn trimmed(s: Seq<char>) -> Seq<char> {
    trim_back(trim_front(s))
}

/// The place of the first colon; the length of the text where there is none.
pub open spec fn first_colon(s: Seq<char>) -> nat
    decreases s.len(),
{
    if s.len() == 0 || s[0] == ':' {
        0
    } else {
        1 + first_colon(s.drop_first())
    }
}

/// Reads digits from the left on top of the value read so far; the first
/// character that is no digit, or at which the value gets too large, decides
/// the error.
pub open spec fn digits_value(s: Seq<char>, so_far: nat) -> Result<u32, NumberError>
    decreases s.len(),
{
    if s.len() == 0 {
        Ok(so_far as u32)
    } else if !('0' <= s[0] <= '9') {
        Err(NumberError::InvalidDigit)
    } else if 10 * so_far + (s[0] as nat - '0' as nat) > u32::MAX {
        Err(NumberError::TooLarge)
    } else {
        digits_value(s.drop_first(), (10 * so_far + (s[0] as nat - '0' as nat)) as nat)
    }
}

/// A decimal number of 32 bits, with an optional plus sign.
pub open spec fn number_value(s: Seq<char>) -> Result<u32, NumberError> {
    if s.len() == 0 {
        Err(NumberError::Empty)
    } else if s.len() > 1 && s[0] == '+' {
        digits_value(s.drop_first(), 0)
    } else {
        digits_value(s, 0)
    }
}

/// The kernel's number for a device: `major << 20 | minor`.
pub open spec fn packed(major: u32, minor: u32) -> u32 {
    (major << 20) | minor
}

/// The device that a `major:minor` text names.
pub open spec fn dev_value(s: Seq<char>) -> Result<u32, DevError> {
    if first_colon(s) == s.len() {
        Err(DevError::MissingColon)
    } else {
        let major = number_value(trimmed(s.take(first_colon(s) as int)));
        let minor = number_value(trimmed(s.skip(first_colon(s) as int + 1)));
        match (major, minor) {
            (Err(e), _) => Err(DevError::Number(e)),
            (Ok(_), Err(e)) => Err(DevError::Number(e)),
            (Ok(major), Ok(minor)) => Ok(packed(major, minor)),
        }
    }
}

/// Major number of a packed device number.
pub open spec fn major_of(dev: u32) -> nat {
    dev as nat / 0x10_0000
}

/// Minor number of a packed device number.
pub open spec fn minor_of(dev: u32) -> nat {
    dev as nat % 0x10_0000
}

/// A packed device number as `major:minor`.
pub open spec fn dev_text(dev: u32) -> Seq<char> {
    decimal(major_of(dev)) + ":"@ + decimal(minor_of(dev))
}

fn is_space(c: char) -> (r: bool)
    ensures
        r == is_space_char(c),
{
    ('\u{9}' <= c && c <= '\u{d}') || c == ' ' || c == '\u{85}' || c == '\u{a0}' || c == '\u{1680}'
        || ('\u{2000}' <= c && c <= '\u{200a}') || c == '\u{2028}' || c == '\u{2029}' || c
        == '\u{202f}' || c == '\u{205f}' || c == '\u{3000}'
}

/// Reads the characters from `from` up to `to` as a number, white space around
/// it aside.
fn number_in(chars: &Vec<char>, from: usize, to: usize) -> (r: Result<u32, NumberError>)
    requires
        from <= to <= chars.len(),
    ensures
        r == number_value(trimmed(chars@.subrange(from as int, to as int))),
{
    let ghost text = chars@.subrange(from as int, to as int);
    let mut a: usize = from;
    while a < to && is_space(chars[a])
        invariant
            from <= a <= to <= chars.len(),
            text == chars@.subrange(from as int, to as int),
            trim_front(text) == trim_front(chars@.subrange(a as int, to as int)),
        decreases to - a,
    {
        assert(chars@.subrange(a as int, to as int).drop_first() =~= chars@.subrange(
            a + 1,
            to as int,
        ));
        a += 1;
    }
    assert(trim_front(text) == chars@.subrange(a as int, to as int));
    let mut b: usize = to;
    while b > a && is_space(chars[b - 1])
        invariant
            a <= b <= to <= chars.len(),
            trimmed(text) == trim_back(chars@.subrange(a as int, b as int)),
        decreases b,
    {
        assert(chars@.subrange(a as int, b as int).drop_last() =~= chars@.subrange(
            a as int,
            b - 1,
        ));
        b -= 1;
    }
    let ghost number = chars@.subrange(a as int, b as int);
    assert(trimmed(text) == number);
    if a == b {
        return Err(NumberError::Empty);
    }
    let mut i: usize = a;
    if b - a > 1 && chars[a] == '+' {
        i = a + 1;
        assert(number.drop_first() =~= chars@.subrange(i as int, b as int));
    }
    let mut value: u32 = 0;
    while i < b
        invariant
            a <= i <= b <= chars.len(),
            trimmed(chars@.subrange(from as int, to as int)) == number,
            number_value(number) == digits_value(chars@.subrange(i as int, b as int), value as nat),
        decreases b - i,
    {
        let ghost rest = chars@.subrange(i as int, b as int);
        assert(rest.drop_first() =~= chars@.subrange(i + 1, b as int));
        let c: char = chars[i];
        if c < '0' || c > '9' {
            return Err(NumberError::InvalidDigit);
        }
        let d: u64 = (c as u32 - 48) as u64;
        let next: u64 = 10 * value as u64 + d;
        if next > u32::MAX as u64 {
            return Err(NumberError::TooLarge);
        }
        value = next as u32;
        i += 1;
    }
    Ok(value)
}

/// `"259:0"` to the kernel's encoding of a device, `major << 20 | minor`, the
/// same as the `dev` field of a `DiskEvent`.
pub fn parse_dev(s: &str) -> (r: Result<u32, DevError>)
    ensures
        r == dev_value(s@),
{
    let chars = chars_of(s);
    let mut i: usize = 0;
    assert(chars@.skip(0) =~= chars@);
    while i < chars.len() && chars[i] != ':'
        invariant
            i <= chars.len(),
            first_colon(chars@) == i + first_colon(chars@.skip(i as int)),
        decreases chars.len() - i,
    {
        assert(chars@.skip(i as int).drop_first() =~= chars@.skip(i + 1));
        i += 1;
    }
    assert(first_colon(chars@) == i);
    if i == chars.len() {
        return Err(DevError::MissingColon);
    }
    assert(chars@.take(i as int) =~= chars@.subrange(0, i as int));
    assert(chars@.skip(i + 1) =~= chars@.subrange(i + 1, chars@.len() as int));
    let major = match number_in(&chars, 0, i) {
        Ok(n) => n,
        Err(e) => return Err(DevError::Number(e)),
    };
    let minor = match number_in(&chars, i + 1, chars.len()) {
        Ok(n) => n,
        Err(e) => return Err(DevError::Number(e)),
    };
    Ok((major << 20) | minor)
}

/// The device that an optional text names: without a text, 0.
pub open spec fn target_of(dev: Option<Seq<char>>) -> Result<u32, DevError> {
    match dev {
        Some(s) => dev_value(s),
        None => Ok(0u32),
    }
}

/// The device to trace, in the kernel's encoding; 0 accepts all devices.
pub fn target_dev(dev: &Option<String>) -> (r: Result<u32, DevError>)
    ensures
        r == target_of(
            match *dev {
                Some(s) => Some(s@),
                None => None,
            },
        ),
{
    match dev {
        Some(s) => parse_dev(s.as_str()),
        None => Ok(0),
    }
}

/// Appends a packed device number as `major:minor`.
pub fn push_dev(out: &mut String, dev: u32)
    ensures
        final(out)@ == old(out)@ + dev_text(dev),
{
    let major: u32 = dev >> 20;
    let minor: u32 = dev & 0xf_ffff;
    assert(major == dev / 0x10_0000) by (bit_vector)
        requires
            major == dev >> 20,
    ;
    assert(minor == dev % 0x10_0000) by (bit_vector)
        requires
            minor == dev & 0xf_ffff,
    ;
    push_decimal(out, major as u64);
    out.append(":");
    push_decimal(out, minor as u64);
    assert(out@ =~= old(out)@ + dev_text(dev));
}

impl DevError {
    /// What the user is told.
    pub fn message(self) -> (r: &'static str)
        ensures
            r@ == match self {
                DevError::MissingColon => "--dev wants major:minor, e.g. 259:0"@,
                DevError::Number(NumberError::Empty) => "cannot parse integer from empty string"@,
                DevError::Number(NumberError::InvalidDigit) => "invalid digit found in string"@,
                DevError::Number(NumberError::TooLarge) =>
                    "number too large to fit in target type"@,
            },
    {
        match self {
            DevError::MissingColon => "--dev wants major:minor, e.g. 259:0",
            DevError::Number(NumberError::Empty) => "cannot parse integer from empty string",
            DevError::Number(NumberError::InvalidDigit) => "invalid digit found in string",
            DevError::Number(NumberError::TooLarge) => "number too large to fit in target type",
        }
    }
}

/// A major number below 2^12 and a minor number below 2^20 come out of the
/// packed number as they went in.
pub proof fn law_packed_device_splits_back(major: u32, minor: u32)
    requires
        major < 0x1000,
        minor < 0x10_0000,
    ensures
        major_of(packed(major, minor)) == major,
        minor_of(packed(major, minor)) == minor,
{
    let dev = packed(major, minor);
    assert(dev / 0x10_0000 == major && dev % 0x10_0000 == minor) by (bit_vector)
        requires
            dev == (major << 20) | minor,
            major < 0x1000,
            minor < 0x10_0000,
    ;
}

/// Every device number reads back from the `major:minor` text that it is shown
/// as.
pub proof fn law_shown_device_parses_back(dev: u32)
    ensures
        dev_value(dev_text(dev)) == Ok::<u32, DevError>(dev),
{
    reveal_strlit(":");
    let major = decimal(major_of(dev));
    let minor = decimal(minor_of(dev));
    let s = dev_text(dev);
    lemma_decimal_chars(major_of(dev));
    lemma_decimal_is_trimmed(major_of(dev));
    lemma_decimal_is_trimmed(minor_of(dev));
    assert(s =~= major + (seq![':'] + minor));
    lemma_first_colon_after(major, seq![':'] + minor);
    assert(first_colon(seq![':'] + minor) == 0);
    assert(s.take(first_colon(s) as int) =~= major);
    assert(s.skip(first_colon(s) as int + 1) =~= minor);
    lemma_decimal_reads_back(major_of(dev));
    lemma_decimal_reads_back(minor_of(dev));
    let hi: u32 = dev / 0x10_0000;
    let lo: u32 = dev % 0x10_0000;
    assert((hi << 20) | lo == dev) by (bit_vector)
        requires
            hi == dev / 0x10_0000,
            lo == dev % 0x10_0000,
    ;
}

proof fn lemma_decimal_is_trimmed(n: nat)
    ensures
        trimmed(decimal(n)) == decimal(n),
{
    lemma_decimal_chars(n);
    let s = decimal(n);
    assert('0' <= s[0] <= '9');
    assert('0' <= s.last() <= '9');
}

proof fn lemma_first_colon_after(a: Seq<char>, b: Seq<char>)
    requires
        forall|i: int| 0 <= i < a.len() ==> #[trigger] a[i] != ':',
    ensures
        first_colon(a + b) == a.len() + first_colon(b),
    decreases a.len(),
{
    if a.len() == 0 {
        assert(a + b =~= b);
    } else {
        assert((a + b).drop_first() =~= a.drop_first() + b);
        lemma_first_colon_after(a.drop_first(), b);
    }
}

/// Digits read one after the other.
proof fn lemma_digits_push(s: Seq<char>, c: char, so_far: nat)
    requires
        digits_value(s, so_far) is Ok,
        so_far <= u32::MAX,
    ensures
        digits_value(s.push(c), so_far) == digits_value(seq![c], digits_value(s, so_far)->Ok_0 as nat),
    decreases s.len(),
{
    if s.len() == 0 {
        assert(s.push(c) =~= seq![c]);
    } else {
        assert(s.push(c).drop_first() =~= s.drop_first().push(c));
        lemma_digits_push(
            s.drop_first(),
            c,
            (10 * so_far + (s[0] as nat - '0' as nat)) as nat,
        );
    }
}

proof fn lemma_decimal_reads_back(n: nat)
    requires
        n <= u32::MAX,
    ensures
        number_value(decimal(n)) == Ok::<u32, NumberError>(n as u32),
        digits_value(decimal(n), 0) == Ok::<u32, NumberError>(n as u32),
    decreases n,
{
    lemma_decimal_chars(n);
    let last = digit(n % 10);
    assert(last as nat - '0' as nat == n % 10);
    reveal_with_fuel(digits_value, 3);
    if n >= 10 {
        lemma_decimal_reads_back(n / 10);
        lemma_digits_push(decimal(n / 10), last, 0);
    } else {
        assert(decimal(n) =~= seq![last]);
    }
}

/// The digits of a number: all of the text but a plus sign in front of more.
pub open spec fn digits_in(s: Seq<char>) -> Seq<char> {
    if s.len() > 1 && s[0] == '+' {
        s.skip(1)
    } else {
        s
    }
}

/// A number is read if and only if its digits are all digits and their value has
/// 32 bits, and that value is the result. Else what comes first in the text
/// decides the error: a character that is no digit, or the digit at which the
/// value gets too large.
pub proof fn law_number_is_the_value_of_its_digits(s: Seq<char>)
    ensures
        ({
            let body = digits_in(s);
            match number_value(s) {
                Ok(n) => body.len() > 0 && all_digits(body) && decimal_value(body) == n,
                Err(NumberError::Empty) => s.len() == 0,
                Err(NumberError::TooLarge) => exists|k: int|
                    0 <= k <= body.len() && all_digits(#[trigger] body.take(k)) && decimal_value(
                        body.take(k),
                    ) > 0xffff_ffff,
                Err(NumberError::InvalidDigit) => exists|k: int|
                    0 <= k < body.len() && !('0' <= body[k] <= '9') && all_digits(
                        #[trigger] body.take(k),
                    ) && decimal_value(body.take(k)) <= 0xffff_ffff,
            }
        }),
{
    if s.len() > 0 {
        let body = digits_in(s);
        assert(s.len() > 1 ==> s.skip(1) =~= s.drop_first());
        assert(body.take(0) =~= seq![]);
        assert(body.skip(0) =~= body);
        lemma_digits_walk(body, 0);
    }
}

proof fn lemma_digits_walk(s: Seq<char>, k: int)
    requires
        0 <= k <= s.len(),
        all_digits(s.take(k)),
        decimal_value(s.take(k)) <= u32::MAX,
    ensures
        match digits_value(s.skip(k), decimal_value(s.take(k))) {
            Ok(n) => all_digits(s) && decimal_value(s) == n,
            Err(NumberError::Empty) => false,
            Err(NumberError::TooLarge) => exists|j: int|
                0 <= j <= s.len() && all_digits(#[trigger] s.take(j)) && decimal_value(s.take(j))
                    > u32::MAX,
            Err(NumberError::InvalidDigit) => exists|j: int|
                0 <= j < s.len() && !('0' <= s[j] <= '9') && all_digits(#[trigger] s.take(j))
                    && decimal_value(s.take(j)) <= u32::MAX,
        },
    decreases s.len() - k,
{
    if k == s.len() {
        assert(s.take(k) =~= s);
    } else {
        let rest = s.skip(k);
        let next = s.take(k + 1);
        assert(rest[0] == s[k]);
        assert(rest.drop_first() =~= s.skip(k + 1));
        assert(next.drop_last() =~= s.take(k));
        assert(next.last() == s[k]);
        if '0' <= s[k] <= '9' {
            assert forall|i: int| 0 <= i < next.len() implies '0' <= #[trigger] next[i] <= '9' by {
                if i < k {
                    assert(next[i] == s.take(k)[i]);
                }
            }
            assert(all_digits(s.take(k + 1)));
            if decimal_value(next) <= u32::MAX {
                lemma_digits_walk(s, k + 1);
            }
        }
    }
}

/// What is trimmed away is white space at the two ends, and none is left there.
pub proof fn law_trimming_takes_white_space_off_the_ends(s: Seq<char>) -> (r: (int, int))
    ensures
        ({
            let (a, b) = r;
            &&& 0 <= a <= b <= s.len()
            &&& trimmed(s) == s.subrange(a, b)
            &&& forall|i: int| 0 <= i < a || b <= i < s.len() ==> is_space_char(#[trigger] s[i])
            &&& a < b ==> !is_space_char(s[a]) && !is_space_char(s[b - 1])
        }),
{
    let a = lemma_trim_front(s);
    let t = trim_front(s);
    let n = lemma_trim_back(t);
    assert(t.take(n) =~= s.subrange(a, a + n));
    assert forall|i: int| a + n <= i < s.len() implies is_space_char(#[trigger] s[i]) by {
        assert(t[i - a] == s[i]);
    }
    if n > 0 {
        assert(t[0] == s[a]);
        assert(t[n - 1] == s[a + n - 1]);
    }
    (a, a + n)
}

proof fn lemma_trim_front(s: Seq<char>) -> (a: int)
    ensures
        0 <= a <= s.len(),
        trim_front(s) == s.skip(a),
        forall|i: int| 0 <= i < a ==> is_space_char(#[trigger] s[i]),
        a < s.len() ==> !is_space_char(s[a]),
    decreases s.len(),
{
    if s.len() > 0 && is_space_char(s[0]) {
        let rest = s.drop_first();
        let a = lemma_trim_front(rest);
        assert(rest.skip(a) =~= s.skip(a + 1));
        assert forall|i: int| 0 <= i < a + 1 implies is_space_char(#[trigger] s[i]) by {
            if i > 0 {
                assert(rest[i - 1] == s[i]);
            }
        }
        a + 1
    } else {
        assert(s.skip(0) =~= s);
        0
    }
}

proof fn lemma_trim_back(s: Seq<char>) -> (n: int)
    ensures
        0 <= n <= s.len(),
        trim_back(s) == s.take(n),
        forall|i: int| n <= i < s.len() ==> is_space_char(#[trigger] s[i]),
        n > 0 ==> !is_space_char(s[n - 1]),
    decreases s.len(),
{
    if s.len() > 0 && is_space_char(s.last()) {
        let front = s.drop_last();
        let n = lemma_trim_back(front);
        assert(front.take(n) =~= s.take(n));
        assert forall|i: int| n <= i < s.len() implies is_space_char(#[trigger] s[i]) by {
            if i < front.len() {
                assert(front[i] == s[i]);
            }
        }
        n
    } else {
        assert(s.take(s.len() as int) =~= s);
        s.len() as int
    }
}

/// A device text is parted at its first colon. Both numbers may have white space
/// around them; an error in the major number is told before one in the minor
/// number. Without a colon there is no device.
pub proof fn law_device_is_two_numbers_around_a_colon(a: Seq<char>, b: Seq<char>)
    requires
        free_of(a, ':'),
    ensures
        dev_value(a) == Err::<u32, DevError>(DevError::MissingColon),
        ({
            let major = number_value(trimmed(a));
            let minor = number_value(trimmed(b));
            let dev = dev_value(a + seq![':'] + b);
            &&& major is Err ==> dev == Err::<u32, DevError>(DevError::Number(major->Err_0))
            &&& major is Ok && minor is Err ==> dev == Err::<u32, DevError>(
                DevError::Number(minor->Err_0),
            )
            &&& major is Ok && minor is Ok ==> dev == Ok::<u32, DevError>(
                packed(major->Ok_0, minor->Ok_0),
            )
        }),
{
    let none: Seq<char> = seq![];
    lemma_first_colon_after(a, none);
    assert(a + none =~= a);
    let tail = seq![':'] + b;
    let s = a + seq![':'] + b;
    lemma_first_colon_after(a, tail);
    assert(first_colon(tail) == 0);
    assert(s =~= a + tail);
    assert(s.take(a.len() as int) =~= a);
    assert(s.skip(a.len() as int + 1) =~= b);
}

/// The low twenty bits of a device's number are those of the minor number; above
/// them a bit is set where the major number, moved up by twenty, or the minor
/// number has it.
pub proof fn law_packed_device_has_the_bits_of_both(major: u32, minor: u32, i: u32)
    requires
        i < 32,
    ensures
        i < 20 ==> (packed(major, minor) >> i) & 1 == (minor >> i) & 1,
        i >= 20 ==> ((packed(major, minor) >> i) & 1 == 1 <==> (minor >> i) & 1 == 1 || (major >> (i
            - 20) as u32) & 1 == 1),
{
    let dev = packed(major, minor);
    if i < 20 {
        assert((dev >> i) & 1 == (minor >> i) & 1) by (bit_vector)
            requires
                dev == (major << 20) | minor,
                i < 20,
        ;
    } else {
        let j: u32 = (i - 20) as u32;
        assert((dev >> i) & 1 == 1 <==> (minor >> i) & 1 == 1 || (major >> j) & 1 == 1)
            by (bit_vector)
            requires
                dev == (major << 20) | minor,
                20 <= i < 32,
                j == i - 20,
        ;
    }
}

/// Only where no device is given all are accepted by default: a text is read,
/// and what is wrong with it is told.
pub proof fn law_given_device_is_read(s: Seq<char>)
    ensures
        target_of(None) == Ok::<u32, DevError>(0),
        target_of(Some(s)) == dev_value(s),
{
}

} // verus!
