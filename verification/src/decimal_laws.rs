//! What numbers, dates and times look like, said of their digits.

use crate::calendar::{
    day_number, days_before_month, is_date, law_years_follow, month_len, timestamp, two_digits,
    year_text,
};
use crate::decimal::{
    all_digits, decimal, digit, is_digit, lemma_decimal_digits, read_u64, value_of, zero_padded,
};
use vstd::prelude::*;

verus! {

/// A number in decimal is its digits, the first of which is zero only if the number is, and
/// stands for the number. One more digit at its end is ten times it and that digit.
pub proof fn law_decimal_is_the_number(n: nat, d: nat)
    requires
        d < 10,
    ensures
        all_digits(decimal(n)),
        value_of(decimal(n)) == n,
        n > 0 ==> decimal(n)[0] != '0',
        n > 0 ==> decimal(10 * n + d) == decimal(n).push(digit(d)),
        decimal(d) == seq![digit(d)],
        digit(d) as u32 == 48 + d,
{
    lemma_decimal_digits(n);
    if n > 0 {
        lemma_no_leading_zero(n);
        assert((10 * n + d) / 10 == n);
        assert((10 * n + d) % 10 == d);
    }
}

proof fn lemma_no_leading_zero(n: nat)
    requires
        n > 0,
    ensures
        decimal(n).len() > 0,
        decimal(n)[0] != '0',
    decreases n,
{
    if n >= 10 {
        lemma_no_leading_zero(n / 10);
    }
}

/// Padding puts zeros before a text, as many as are missing and no more, and keeps the text.
pub proof fn law_padding_puts_zeros_before(s: Seq<char>, width: nat)
    ensures
        zero_padded(s, width).len() == if s.len() < width {
            width
        } else {
            s.len()
        },
        zero_padded(s, width).skip(zero_padded(s, width).len() - s.len()) == s,
        forall|i: int|
            0 <= i < zero_padded(s, width).len() - s.len() ==> #[trigger] zero_padded(s, width)[i] == '0',
    decreases width - s.len(),
{
    let out = zero_padded(s, width);
    if s.len() < width {
        let more = seq!['0'] + s;
        law_padding_puts_zeros_before(more, width);
        let k = out.len() - s.len();
        assert(out.skip(k) =~= out.skip(k - 1).skip(1));
        assert(more.skip(1) =~= s);
        assert(out[k - 1] == out.skip(k - 1)[0]);
    } else {
        assert(out.skip(0) =~= s);
    }
}

proof fn lemma_value_of_padded(zeros: Seq<char>, s: Seq<char>)
    requires
        forall|i: int| 0 <= i < zeros.len() ==> #[trigger] zeros[i] == '0',
    ensures
        value_of(zeros + s) == value_of(s),
    decreases s.len() + zeros.len(),
{
    let whole = zeros + s;
    if s.len() > 0 {
        lemma_value_of_padded(zeros, s.drop_last());
        assert(whole.drop_last() =~= zeros + s.drop_last());
        assert(whole.last() == s.last());
    } else if zeros.len() > 0 {
        let fewer = zeros.drop_last();
        assert forall|i: int| 0 <= i < fewer.len() implies #[trigger] fewer[i] == '0' by {
            assert(fewer[i] == zeros[i]);
        }
        lemma_value_of_padded(fewer, s);
        assert(whole.drop_last() =~= fewer + s);
        assert(whole.last() == zeros[zeros.len() - 1]);
    } else {
        assert(whole =~= s);
    }
}

/// Padding does not change what number the digits stand for.
pub proof fn law_padding_keeps_the_number(n: nat, width: nat)
    ensures
        value_of(zero_padded(decimal(n), width)) == n,
{
    let s = decimal(n);
    let out = zero_padded(s, width);
    law_padding_puts_zeros_before(s, width);
    lemma_decimal_digits(n);
    let k = out.len() - s.len();
    assert(out =~= out.take(k) + out.skip(k));
    assert forall|i: int| 0 <= i < out.take(k).len() implies #[trigger] out.take(k)[i] == '0' by {
        assert(out.take(k)[i] == out[i]);
    }
    lemma_value_of_padded(out.take(k), s);
}

proof fn lemma_decimal_len(n: nat)
    ensures
        n < 10 ==> decimal(n).len() == 1,
        10 <= n < 100 ==> decimal(n).len() == 2,
        100 <= n < 1000 ==> decimal(n).len() == 3,
        1000 <= n < 10000 ==> decimal(n).len() == 4,
{
    reveal_with_fuel(decimal, 5);
}

/// `part` is a number of exactly `width` digits.
pub open spec fn is_number(part: Seq<char>, width: nat, n: int) -> bool {
    part.len() == width && value_of(part) == n
}

proof fn lemma_two_digits(n: int)
    requires
        0 <= n < 100,
    ensures
        is_number(two_digits(n), 2, n),
{
    lemma_decimal_len(n as nat);
    law_padding_puts_zeros_before(decimal(n as nat), 2);
    law_padding_keeps_the_number(n as nat, 2);
}

/// A timestamp of a year with four digits tells the year, the month, the day and the time,
/// each at its place.
pub proof fn law_timestamps_tell_the_time(y: int, m: int, d: int, second: int)
    requires
        0 <= y <= 9999,
        is_date(y, m, d),
        0 <= second < 86_400,
    ensures
        timestamp(y, m, d, second).len() == 20,
        is_number(timestamp(y, m, d, second).subrange(0, 4), 4, y),
        timestamp(y, m, d, second)[4] == '-',
        is_number(timestamp(y, m, d, second).subrange(5, 7), 2, m),
        timestamp(y, m, d, second)[7] == '-',
        is_number(timestamp(y, m, d, second).subrange(8, 10), 2, d),
        timestamp(y, m, d, second)[10] == 'T',
        exists|hour: int, minute: int, rest: int|
            #![trigger clock(hour, minute, rest)]
            0 <= hour < 24 && 0 <= minute < 60 && 0 <= rest < 60 && clock(hour, minute, rest) == second
                && is_number(timestamp(y, m, d, second).subrange(11, 13), 2, hour) && is_number(
                timestamp(y, m, d, second).subrange(14, 16),
                2,
                minute,
            ) && is_number(timestamp(y, m, d, second).subrange(17, 19), 2, rest),
        timestamp(y, m, d, second)[13] == ':',
        timestamp(y, m, d, second)[16] == ':',
        timestamp(y, m, d, second)[19] == 'Z',
{
    let t = timestamp(y, m, d, second);
    let hour = second / 3600;
    let minute = second % 3600 / 60;
    let rest = second % 60;
    lemma_decimal_len(y as nat);
    law_padding_puts_zeros_before(decimal(y as nat), 4);
    law_padding_keeps_the_number(y as nat, 4);
    lemma_two_digits(m);
    lemma_two_digits(d);
    lemma_two_digits(hour);
    lemma_two_digits(minute);
    lemma_two_digits(rest);
    assert(t.subrange(0, 4) =~= year_text(y));
    assert(t.subrange(5, 7) =~= two_digits(m));
    assert(t.subrange(8, 10) =~= two_digits(d));
    assert(t.subrange(11, 13) =~= two_digits(hour));
    assert(t.subrange(14, 16) =~= two_digits(minute));
    assert(t.subrange(17, 19) =~= two_digits(rest));
    assert(clock(hour, minute, rest) == second);
}

/// The seconds of a time of day.
pub open spec fn clock(hour: int, minute: int, second: int) -> int {
    3600 * hour + 60 * minute + second
}

/// Days are numbered one after the other, through the ends of months and of years, from the
/// first of January 1970, which is 0.
pub proof fn law_days_follow(y: int, m: int, d: int)
    requires
        is_date(y, m, d),
    ensures
        is_date(y, m, d + 1) ==> day_number(y, m, d + 1) == day_number(y, m, d) + 1,
        !is_date(y, m, d + 1) && m < 12 ==> is_date(y, m + 1, 1) && day_number(y, m + 1, 1) == day_number(
            y,
            m,
            d,
        ) + 1,
        !is_date(y, m, d + 1) && m == 12 ==> is_date(y + 1, 1, 1) && day_number(y + 1, 1, 1)
            == day_number(y, m, d) + 1,
        day_number(1970, 1, 1) == 0,
{
    law_years_follow(y);
    reveal_with_fuel(days_before_month, 13);
    assert(days_before_month(y, m + 1) == days_before_month(y, m) + month_len(y, m));
}

/// How long the months are.
pub proof fn law_months_of_a_year(y: int)
    ensures
        forall|m: int|
            m == 1 || m == 3 || m == 5 || m == 7 || m == 8 || m == 10 || m == 12 ==> #[trigger] month_len(
                y,
                m,
            ) == 31,
        forall|m: int| m == 4 || m == 6 || m == 9 || m == 11 ==> #[trigger] month_len(y, m) == 30,
        month_len(y, 2) == 28 || month_len(y, 2) == 29,
        month_len(y, 2) == 29 <==> (y % 400 == 0 || (y % 4 == 0 && y % 100 != 0)),
{
}

/// What is read as a number: digits, with a plus before them or not, however many zeros stand
/// in front, if the number fits; anything else is none.
pub proof fn law_what_is_read_as_a_number(s: Seq<char>, i: int)
    ensures
        all_digits(s) && value_of(s) <= u64::MAX ==> read_u64(s) == Some(value_of(s) as u64) && read_u64(
            seq!['+'] + s,
        ) == Some(value_of(s) as u64),
        all_digits(s) && value_of(s) > u64::MAX ==> read_u64(s) is None && read_u64(seq!['+'] + s) is None,
        s.len() == 0 ==> read_u64(s) is None && read_u64(seq!['+'] + s) is None,
        0 <= i < s.len() && !is_digit(s[i]) ==> read_u64(seq!['+'] + s) is None && (i > 0 || s[0] != '+'
            ==> read_u64(s) is None),
{
    let plus = seq!['+'] + s;
    assert(plus[0] == '+');
    assert(plus.skip(1) =~= s);
    if all_digits(s) {
        assert(is_digit(s[0]));
    }
    if 0 <= i < s.len() && !is_digit(s[i]) {
        assert(!all_digits(s));
        if i > 0 && s[0] == '+' {
            assert(s.skip(1)[i - 1] == s[i]);
            assert(!is_digit(s.skip(1)[i - 1]));
        }
    }
}

/// Digits stand for a number as they are read: one more digit is ten times the number and
/// that digit, and zeros in front are nothing.
pub proof fn law_what_digits_stand_for(s: Seq<char>, d: nat)
    requires
        d < 10,
    ensures
        value_of(Seq::empty()) == 0,
        value_of(s.push(digit(d))) == 10 * value_of(s) + d,
        value_of(seq!['0'] + s) == value_of(s),
{
    assert(s.push(digit(d)).drop_last() =~= s);
    assert(s.push(digit(d)).last() == digit(d));
    assert(digit(d) as u32 == 48 + d);
    lemma_value_of_padded(seq!['0'], s);
}

/// A year beyond four digits is written with as many as it has, and one before the year 0
/// with a minus.
pub proof fn law_years_out_of_range(y: int)
    ensures
        y >= 1000 ==> year_text(y) == decimal(y as nat),
        y < 0 ==> year_text(y)[0] == '-' && value_of(year_text(y).skip(1)) == -y && year_text(y).len() >= 4,
{
    if y >= 1000 {
        lemma_decimal_grows(y as nat);
    } else if y < 0 {
        law_padding_puts_zeros_before(decimal((-y) as nat), 3);
        law_padding_keeps_the_number((-y) as nat, 3);
        assert(year_text(y).skip(1) =~= zero_padded(decimal((-y) as nat), 3));
    }
}

proof fn lemma_decimal_grows(n: nat)
    requires
        n >= 1000,
    ensures
        decimal(n).len() >= 4,
{
    reveal_with_fuel(decimal, 4);
    assert(n / 10 >= 100);
    assert(n / 10 / 10 >= 10);
    assert(n / 10 / 10 / 10 >= 1);
}

} // verus!
