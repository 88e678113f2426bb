//! Numbers as people read them: decimal digits, thousands separators, one
//! digit after the point.

use vstd::prelude::*;

verus! {

/// `String::push` of std: appends one character to the end of the string.
pub assume_specification[ String::push ](s: &mut String, c: char)
    ensures
        final(s)@ == old(s)@.push(c),
;

/// The decimal digit `d`, for `0 <= d < 10`.
pub open spec fn digit(d: nat) -> char {
    ('0' as nat + d) as char
}

/// `n` in base ten, without leading zeros.
pub open spec fn decimal(n: nat) -> Seq<char>
    decreases n,
{
    if n < 10 {
        seq![digit(n)]
    } else {
        decimal(n / 10).push(digit(n % 10))
    }
}

/// `n` in base ten, with a leading `-` when it is negative.
pub open spec fn signed_decimal(n: int) -> Seq<char> {
    if n < 0 {
        seq!['-'] + decimal((-n) as nat)
    } else {
        decimal(n as nat)
    }
}

/// A comma before every group of three characters, counted from the right.
pub open spec fn grouped(s: Seq<char>) -> Seq<char>
    decreases s.len(),
{
    if s.len() <= 3 {
        s
    } else {
        grouped(s.take(s.len() - 3)).push(',') + s.skip(s.len() - 3)
    }
}

/// `n` in base ten, filled up to two digits with a zero.
pub open spec fn two_digits(n: nat) -> Seq<char> {
    if n < 10 {
        seq!['0'] + decimal(n)
    } else {
        decimal(n)
    }
}

/// `n` tenths as a decimal number with one digit after the point.
pub open spec fn tenths(n: nat) -> Seq<char> {
    decimal(n / 10).push('.').push(digit(n % 10))
}

/// `n / d` rounded to the nearest integer, halves to the even neighbour.
pub open spec fn half_even(n: nat, d: nat) -> nat {
    let q = n / d;
    let r = n % d;
    if 2 * r < d || (2 * r == d && q % 2 == 0) {
        q
    } else {
        q + 1
    }
}

fn digit_char(d: u64) -> (c: char)
    requires
        d < 10,
    ensures
        c == digit(d as nat),
{
    (48u8 + d as u8) as char
}

/// Appends `n` in base ten.
pub fn push_decimal(out: &mut String, n: u64)
    ensures
        final(out)@ == old(out)@ + decimal(n as nat),
    decreases n,
{
    if n >= 10 {
        push_decimal(out, n / 10);
    }
    out.push(digit_char(n % 10));
    assert(out@ =~= old(out)@ + decimal(n as nat));
}

/// Appends `n` in base ten, signed.
pub fn push_signed(out: &mut String, n: i64)
    ensures
        final(out)@ == old(out)@ + signed_decimal(n as int),
{
    if n < 0 {
        out.push('-');
        let magnitude: u64 = (-(n as i128)) as u64;
        push_decimal(out, magnitude);
        assert(out@ =~= old(out)@ + signed_decimal(n as int));
    } else {
        push_decimal(out, n as u64);
    }
}

/// Appends `n` in base ten, filled up to two digits with a zero.
pub fn push_two_digits(out: &mut String, n: u64)
    ensures
        final(out)@ == old(out)@ + two_digits(n as nat),
{
    if n < 10 {
        out.push('0');
    }
    push_decimal(out, n);
    assert(out@ =~= old(out)@ + two_digits(n as nat));
}

/// Appends `n` tenths as a number with one digit after the point.
pub fn push_tenths(out: &mut String, n: u64)
    ensures
        final(out)@ == old(out)@ + tenths(n as nat),
{
    push_decimal(out, n / 10);
    out.push('.');
    out.push(digit_char(n % 10));
    assert(out@ =~= old(out)@ + tenths(n as nat));
}

/// Appends `n` with thousands separators.
pub fn push_commas(out: &mut String, n: u64)
    ensures
        final(out)@ == old(out)@ + grouped(decimal(n as nat)),
    decreases n,
{
    proof {
        lemma_decimal_groups(n as nat);
    }
    if n >= 1000 {
        push_commas(out, n / 1000);
        out.push(',');
        let rest: u64 = n % 1000;
        out.push(digit_char(rest / 100));
        out.push(digit_char((rest / 10) % 10));
        out.push(digit_char(rest % 10));
    } else {
        push_decimal(out, n);
    }
    assert(out@ =~= old(out)@ + grouped(decimal(n as nat)));
}

/// Thousands separators: a comma before every group of three digits from the
/// right.
pub fn commas(n: u64) -> (r: String)
    ensures
        r@ == grouped(decimal(n as nat)),
{
    let mut out = String::new();
    push_commas(&mut out, n);
    assert(out@ =~= grouped(decimal(n as nat)));
    out
}

/// `n / d` rounded to the nearest integer, halves to the even neighbour.
pub fn round_half_even(n: u128, d: u128) -> (q: u128)
    requires
        d > 0,
        2 * d <= u128::MAX,
    ensures
        q == half_even(n as nat, d as nat),
{
    let q: u128 = n / d;
    let r: u128 = n % d;
    if 2 * r < d || (2 * r == d && q % 2 == 0) {
        q
    } else {
        proof {
            assert(q < u128::MAX) by (nonlinear_arith)
                requires
                    q == n / d,
                    r == n % d,
                    r > 0 || d > 1,
                    d > 0,
                    n <= u128::MAX,
            ;
        }
        q + 1
    }
}

/// The characters of a string.
pub fn chars_of(s: &str) -> (r: Vec<char>)
    ensures
        r@ == s@,
{
    let mut out: Vec<char> = Vec::new();
    for c in it: s.chars()
        invariant
            out@ == it.seq().take(it.index() as int),
            it.seq() == s@,
    {
        out.push(c);
        assert(out@ =~= it.seq().take(it.index() + 1));
    }
    assert(out@ =~= s@);
    out
}

/// Whether a character is no separator.
pub open spec fn no_separator() -> spec_fn(char) -> bool {
    |c: char| c != ','
}

/// The separators stand in every fourth place from the right and nowhere else,
/// and without them the digits are those of the number.
pub proof fn law_commas_group_by_three(n: nat)
    ensures
        ({
            let g = grouped(decimal(n));
            &&& forall|i: int|
                0 <= i < g.len() ==> (#[trigger] g[i] == ',' <==> (g.len() - i) % 4 == 0)
            &&& g[0] != ','
            &&& g.filter(no_separator()) == decimal(n)
        }),
{
    lemma_decimal_chars(n);
    lemma_grouped_places(decimal(n));
    lemma_grouped_digits(decimal(n));
}

/// A number in base ten is at least one digit, and nothing but digits.
pub proof fn lemma_decimal_chars(n: nat)
    ensures
        decimal(n).len() > 0,
        forall|i: int| 0 <= i < decimal(n).len() ==> '0' <= #[trigger] decimal(n)[i] <= '9',
    decreases n,
{
    if n >= 10 {
        lemma_decimal_chars(n / 10);
    }
}

proof fn lemma_grouped_places(s: Seq<char>)
    requires
        s.len() > 0,
        forall|i: int| 0 <= i < s.len() ==> #[trigger] s[i] != ',',
    ensures
        grouped(s).len() > 0,
        forall|i: int|
            0 <= i < grouped(s).len() ==> (#[trigger] grouped(s)[i] == ',' <==> (grouped(s).len()
                - i) % 4 == 0),
        grouped(s)[0] != ',',
    decreases s.len(),
{
    if s.len() > 3 {
        let g = grouped(s);
        let h = grouped(s.take(s.len() - 3));
        lemma_grouped_places(s.take(s.len() - 3));
        assert forall|i: int| 0 <= i < g.len() implies (#[trigger] g[i] == ',' <==> (g.len() - i)
            % 4 == 0) by {
            if i < h.len() {
                assert(g[i] == h[i]);
                assert((g.len() - i) == (h.len() - i) + 4);
            } else if i > h.len() {
                assert(g[i] == s[s.len() - 3 + (i - h.len() - 1)]);
            }
        }
        assert(g[0] == h[0]);
    }
}

proof fn lemma_grouped_digits(s: Seq<char>)
    requires
        forall|i: int| 0 <= i < s.len() ==> #[trigger] s[i] != ',',
    ensures
        grouped(s).filter(no_separator()) == s,
    decreases s.len(),
{
    let kept = no_separator();
    if s.len() <= 3 {
        lemma_filter_keeps_all(s, kept);
    } else {
        let front = s.take(s.len() - 3);
        let back = s.skip(s.len() - 3);
        lemma_grouped_digits(front);
        Seq::filter_distributes_over_add(grouped(front).push(','), back, kept);
        lemma_filter_keeps_all(back, kept);
        assert(grouped(front).push(',').filter(kept) == grouped(front).filter(kept)) by {
            reveal(Seq::filter);
            assert(grouped(front).push(',').drop_last() =~= grouped(front));
        }
        assert(front + back =~= s);
    }
}

proof fn lemma_filter_keeps_all(s: Seq<char>, kept: spec_fn(char) -> bool)
    requires
        forall|i: int| 0 <= i < s.len() ==> kept(#[trigger] s[i]),
    ensures
        s.filter(kept) == s,
    decreases s.len(),
{
    reveal(Seq::filter);
    if s.len() > 0 {
        lemma_filter_keeps_all(s.drop_last(), kept);
        assert(s.drop_last().push(s.last()) =~= s);
    }
}

proof fn lemma_last_three_digits(n: nat)
    ensures
        n / 10 / 10 == n / 100,
        n / 100 / 10 == n / 1000,
        n % 1000 / 100 == n / 100 % 10,
        n % 1000 / 10 % 10 == n / 10 % 10,
        n % 1000 % 10 == n % 10,
{
    let a = n % 10;
    let b = n / 10 % 10;
    let c = n / 10 / 10 % 10;
    let d = n / 10 / 10 / 10;
    assert(n == 1000 * d + 100 * c + 10 * b + a);
    assert(n / 100 == 10 * d + c);
    assert(n / 1000 == d);
    assert(n % 1000 == 100 * c + 10 * b + a);
}

proof fn lemma_decimal_groups(n: nat)
    ensures
        decimal(n).len() <= 3 <==> n < 1000,
        n >= 1000 ==> grouped(decimal(n)) == grouped(decimal(n / 1000)).push(',') + seq![
            digit(n % 1000 / 100),
            digit(n % 1000 / 10 % 10),
            digit(n % 1000 % 10),
        ],
{
    if n >= 1000 {
        let tens = n / 10;
        let hundreds = n / 100;
        let thousands = n / 1000;
        lemma_last_three_digits(n);
        assert(decimal(hundreds) == decimal(thousands).push(digit(hundreds % 10)));
        assert(decimal(tens) == decimal(hundreds).push(digit(tens % 10)));
        assert(decimal(n) == decimal(tens).push(digit(n % 10)));
        assert(decimal(thousands).len() > 0);
        let s = decimal(n);
        assert(s.take(s.len() - 3) =~= decimal(thousands));
        assert(s.skip(s.len() - 3) =~= seq![
            digit(hundreds % 10),
            digit(tens % 10),
            digit(n % 10),
        ]);
    } else if n >= 100 {
        assert(decimal(n / 100).len() == 1);
        assert(n / 10 / 10 == n / 100);
        assert(decimal(n / 10).len() == 2);
    } else if n >= 10 {
        assert(decimal(n / 10).len() == 1);
    }
}

/// The number that a row of decimal digits stands for.
pub open spec fn decimal_value(s: Seq<char>) -> nat
    decreases s.len(),
{
    if s.len() == 0 {
        0
    } else {
        10 * decimal_value(s.drop_last()) + (s.last() as nat - '0' as nat) as nat
    }
}

/// Whether a text is a row of decimal digits.
pub open spec fn all_digits(s: Seq<char>) -> bool {
    forall|i: int| 0 <= i < s.len() ==> '0' <= #[trigger] s[i] <= '9'
}

/// Whether a text begins with another.
pub open spec fn starts_with(s: Seq<char>, front: Seq<char>) -> bool {
    s.len() >= front.len() && s.take(front.len() as int) == front
}

/// Whether a text ends in another.
pub open spec fn ends_with(s: Seq<char>, back: Seq<char>) -> bool {
    s.len() >= back.len() && s.skip(s.len() - back.len()) == back
}

/// Whether a text is free of a character.
pub open spec fn free_of(s: Seq<char>, c: char) -> bool {
    forall|i: int| 0 <= i < s.len() ==> #[trigger] s[i] != c
}

/// The parts of a text between the separators.
pub open spec fn fields(s: Seq<char>, separator: char) -> Seq<Seq<char>>
    decreases s.len(),
{
    if s.len() == 0 {
        seq![s]
    } else {
        let rest = fields(s.drop_first(), separator);
        if s[0] == separator {
            seq![Seq::<char>::empty()] + rest
        } else {
            seq![seq![s[0]] + rest[0]] + rest.drop_first()
        }
    }
}

/// The digits of a number read as that number, and there is no zero in front
/// unless the number is zero.
pub proof fn law_decimal_reads_as_the_number(n: nat)
    ensures
        decimal_value(decimal(n)) == n,
        all_digits(decimal(n)),
        decimal(n).len() > 0,
        n > 0 ==> decimal(n)[0] != '0',
        n == 0 ==> decimal(n).len() == 1,
    decreases n,
{
    lemma_decimal_chars(n);
    if n >= 10 {
        law_decimal_reads_as_the_number(n / 10);
        assert(decimal(n).drop_last() =~= decimal(n / 10));
        assert(decimal(n)[0] == decimal(n / 10)[0]);
    } else {
        let s = decimal(n);
        assert(s.drop_last() =~= seq![]);
        assert(decimal_value(s.drop_last()) == 0);
    }
}

/// A negative number is its opposite with a minus sign in front, and one that is
/// not negative is plain digits.
pub proof fn law_minus_sign_negates(n: nat)
    ensures
        signed_decimal(n as int) == decimal(n),
        n > 0 ==> signed_decimal(-n) == seq!['-'] + decimal(n),
{
}

/// A number below a hundred takes two digits, which read as that number; a
/// larger one is not cut.
pub proof fn law_two_digits_read_as_the_number(n: nat)
    ensures
        n < 100 ==> two_digits(n).len() == 2,
        all_digits(two_digits(n)),
        decimal_value(two_digits(n)) == n,
        n >= 100 ==> two_digits(n) == decimal(n),
{
    law_decimal_reads_as_the_number(n);
    let s = two_digits(n);
    if n < 10 {
        assert(s =~= seq!['0', digit(n)]);
        assert(s.drop_last() =~= seq!['0']);
        assert(s.drop_last().drop_last() =~= seq![]);
        reveal_with_fuel(decimal_value, 3);
    } else if n < 100 {
        assert(decimal(n / 10).len() == 1);
    }
}

/// One digit stands behind the point, and the digits without the point read as
/// the number of tenths.
pub proof fn law_tenths_read_as_the_number(n: nat)
    ensures
        ({
            let s = tenths(n);
            let whole = s.take(s.len() - 2);
            &&& s.len() >= 3
            &&& s[s.len() - 2] == '.'
            &&& all_digits(whole)
            &&& whole.len() > 1 ==> whole[0] != '0'
            &&& '0' <= s.last() <= '9'
            &&& decimal_value(whole.push(s.last())) == n
        }),
{
    law_decimal_reads_as_the_number(n / 10);
    let s = tenths(n);
    let whole = s.take(s.len() - 2);
    assert(whole =~= decimal(n / 10));
    assert(whole.push(s.last()).drop_last() =~= whole);
    if n / 10 == 0 {
        assert(whole.len() == 1);
    }
}

/// Rounding goes to the nearest integer, and from the middle between two to the
/// even one.
pub proof fn law_rounds_to_nearest_even(n: nat, d: nat)
    requires
        d > 0,
    ensures
        is_nearest(n, d, half_even(n, d)),
{
    let q = n / d;
    let r = n % d;
    assert(n == q * d + r && 0 <= r < d) by (nonlinear_arith)
        requires
            d > 0,
            q == n / d,
            r == n % d,
    ;
    assert((q + 1) * d == q * d + d) by (nonlinear_arith);
}

/// A number is nearest to the quotient `n / d`, halves going to the even
/// neighbour.
pub open spec fn is_nearest(n: nat, d: nat, m: nat) -> bool {
    &&& 2 * n - d <= 2 * (m * d) <= 2 * n + d
    &&& 2 * (m * d) == 2 * n + d || 2 * (m * d) == 2 * n - d ==> m % 2 == 0
}

/// What stands before the first separator is the first field.
pub proof fn lemma_first_field(a: Seq<char>, separator: char, b: Seq<char>)
    requires
        free_of(a, separator),
    ensures
        fields(a + seq![separator] + b, separator) == seq![a] + fields(b, separator),
    decreases a.len(),
{
    let s = a + seq![separator] + b;
    if a.len() == 0 {
        assert(s.drop_first() =~= b);
        assert(a =~= Seq::<char>::empty());
    } else {
        let rest = a.drop_first();
        assert(s.drop_first() =~= rest + seq![separator] + b);
        lemma_first_field(rest, separator, b);
        let f = fields(s.drop_first(), separator);
        assert(f[0] == rest);
        assert(seq![s[0]] + rest =~= a);
        assert(f.drop_first() =~= fields(b, separator));
    }
}

/// A text without separators is its only field.
pub proof fn lemma_only_field(a: Seq<char>, separator: char)
    requires
        free_of(a, separator),
    ensures
        fields(a, separator) == seq![a],
    decreases a.len(),
{
    if a.len() > 0 {
        lemma_only_field(a.drop_first(), separator);
        let f = fields(a.drop_first(), separator);
        assert(seq![a[0]] + f[0] =~= a);
        assert(f.drop_first() =~= seq![]);
        assert(fields(a, separator) =~= seq![a]);
    }
}

/// Numbers hold neither bars nor spaces.
pub proof fn lemma_numbers_hold_no_separator(n: nat, separator: char)
    requires
        separator == '|' || separator == ' ',
    ensures
        free_of(decimal(n), separator),
        free_of(signed_decimal(n as int), separator),
        free_of(signed_decimal(-n), separator),
        free_of(grouped(decimal(n)), separator),
        free_of(tenths(n), separator),
        free_of(two_digits(n), separator),
{
    lemma_decimal_chars(n);
    lemma_decimal_chars(n / 10);
    lemma_grouped_free(decimal(n), separator);
}

proof fn lemma_grouped_free(s: Seq<char>, separator: char)
    requires
        separator != ',',
        free_of(s, separator),
    ensures
        free_of(grouped(s), separator),
    decreases s.len(),
{
    if s.len() > 3 {
        lemma_grouped_free(s.take(s.len() - 3), separator);
    }
}

/// Two texts joined begin with the first.
pub proof fn lemma_front(a: Seq<char>, b: Seq<char>)
    ensures
        starts_with(a + b, a),
{
    assert((a + b).take(a.len() as int) =~= a);
}

/// Two texts joined end in the second.
pub proof fn lemma_back(a: Seq<char>, b: Seq<char>)
    ensures
        ends_with(a + b, b),
{
    assert((a + b).skip((a + b).len() - b.len()) =~= b);
}

/// Two texts with a separator between them have the fields of both.
pub proof fn lemma_fields_join(a: Seq<char>, separator: char, b: Seq<char>)
    ensures
        fields(a + seq![separator] + b, separator) == fields(a, separator) + fields(b, separator),
        fields(a, separator).len() > 0,
    decreases a.len(),
{
    let s = a + seq![separator] + b;
    if a.len() == 0 {
        assert(s.drop_first() =~= b);
        assert(a =~= Seq::<char>::empty());
    } else {
        let rest = a.drop_first();
        assert(s.drop_first() =~= rest + seq![separator] + b);
        lemma_fields_join(rest, separator, b);
        let f = fields(rest, separator);
        let g = fields(s.drop_first(), separator);
        assert(g[0] == f[0]);
        assert(g.drop_first() =~= f.drop_first() + fields(b, separator));
        assert(fields(s, separator) =~= fields(a, separator) + fields(b, separator));
    }
}

/// Two texts that are free of a character are so together.
pub proof fn lemma_free_join(a: Seq<char>, b: Seq<char>, c: char)
    requires
        free_of(a, c),
        free_of(b, c),
    ensures
        free_of(a + b, c),
{
}

} // verus!
