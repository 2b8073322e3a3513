//! The timestamp that leads a record's name, and why the order of names is
//! the order of time.

use crate::text::{lemma_code_point_injective, lex_le, lex_lt};
use vstd::prelude::*;

verus! {

/// A decimal digit.
pub open spec fn is_digit(c: char) -> bool {
    '0' <= c <= '9'
}

/// The value of a decimal digit.
pub open spec fn digit(c: char) -> int {
    (c as u32) as int - 48
}

/// The number that the two digits at `i` and `i + 1` write.
pub open spec fn two_digits(name: Seq<char>, i: int) -> int {
    digit(name[i]) * 10 + digit(name[i + 1])
}

/// The name begins with a timestamp of the form `YYYYMMDDTHHMMSS`: eight
/// digits, the letter `T`, six digits.
pub open spec fn has_timestamp_prefix(name: Seq<char>) -> bool {
    &&& name.len() >= 15
    &&& forall|i: int| 0 <= i < 15 && i != 8 ==> is_digit(#[trigger] name[i])
    &&& name[8] == 'T'
}

/// The moment that a name's timestamp writes: year, month, day, hour, minute
/// and second.
pub open spec fn moment_of(name: Seq<char>) -> (int, int, int, int, int, int) {
    (
        two_digits(name, 0) * 100 + two_digits(name, 2),
        two_digits(name, 4),
        two_digits(name, 6),
        two_digits(name, 9),
        two_digits(name, 11),
        two_digits(name, 13),
    )
}

/// The first moment is not after the second.
pub open spec fn moment_le(x: (int, int, int, int, int, int), y: (int, int, int, int, int, int)) -> bool {
    if x.0 != y.0 {
        x.0 < y.0
    } else if x.1 != y.1 {
        x.1 < y.1
    } else if x.2 != y.2 {
        x.2 < y.2
    } else if x.3 != y.3 {
        x.3 < y.3
    } else if x.4 != y.4 {
        x.4 < y.4
    } else {
        x.5 <= y.5
    }
}

/// Two sequences that first differ at index `k` are ordered as their
/// characters at `k` are.
pub proof fn lemma_lex_first_difference(a: Seq<char>, b: Seq<char>, k: int)
    requires
        0 <= k < a.len(),
        k < b.len(),
        forall|j: int| 0 <= j < k ==> a[j] == b[j],
        a[k] != b[k],
    ensures
        lex_lt(a, b) == ((a[k] as u32) < (b[k] as u32)),
    decreases k,
{
    if k > 0 {
        assert(a[0] == b[0]);
        assert forall|j: int| 0 <= j < k - 1 implies a.drop_first()[j] == b.drop_first()[j] by {
            assert(a[j + 1] == b[j + 1]);
        }
        lemma_lex_first_difference(a.drop_first(), b.drop_first(), k - 1);
    }
}

/// Among names that begin with a timestamp, the order of the names is the
/// order of their moments: a name that is not greater is not younger.
pub proof fn lemma_name_order_is_chronological(a: Seq<char>, b: Seq<char>)
    requires
        has_timestamp_prefix(a),
        has_timestamp_prefix(b),
        lex_le(a, b),
    ensures
        moment_le(moment_of(a), moment_of(b)),
{
    assert(is_digit(a[0]) && is_digit(a[1]) && is_digit(a[2]) && is_digit(a[3]));
    assert(is_digit(a[4]) && is_digit(a[5]) && is_digit(a[6]) && is_digit(a[7]));
    assert(is_digit(a[9]) && is_digit(a[10]) && is_digit(a[11]));
    assert(is_digit(a[12]) && is_digit(a[13]) && is_digit(a[14]));
    assert(is_digit(b[0]) && is_digit(b[1]) && is_digit(b[2]) && is_digit(b[3]));
    assert(is_digit(b[4]) && is_digit(b[5]) && is_digit(b[6]) && is_digit(b[7]));
    assert(is_digit(b[9]) && is_digit(b[10]) && is_digit(b[11]));
    assert(is_digit(b[12]) && is_digit(b[13]) && is_digit(b[14]));
    if a[0] != b[0] {
        lemma_lex_first_difference(b, a, 0);
        lemma_code_point_injective(a[0], b[0]);
    } else if a[1] != b[1] {
        lemma_lex_first_difference(b, a, 1);
        lemma_code_point_injective(a[1], b[1]);
    } else if a[2] != b[2] {
        lemma_lex_first_difference(b, a, 2);
        lemma_code_point_injective(a[2], b[2]);
    } else if a[3] != b[3] {
        lemma_lex_first_difference(b, a, 3);
        lemma_code_point_injective(a[3], b[3]);
    } else if a[4] != b[4] {
        lemma_lex_first_difference(b, a, 4);
        lemma_code_point_injective(a[4], b[4]);
    } else if a[5] != b[5] {
        lemma_lex_first_difference(b, a, 5);
        lemma_code_point_injective(a[5], b[5]);
    } else if a[6] != b[6] {
        lemma_lex_first_difference(b, a, 6);
        lemma_code_point_injective(a[6], b[6]);
    } else if a[7] != b[7] {
        lemma_lex_first_difference(b, a, 7);
        lemma_code_point_injective(a[7], b[7]);
    } else if a[9] != b[9] {
        lemma_lex_first_difference(b, a, 9);
        lemma_code_point_injective(a[9], b[9]);
    } else if a[10] != b[10] {
        lemma_lex_first_difference(b, a, 10);
        lemma_code_point_injective(a[10], b[10]);
    } else if a[11] != b[11] {
        lemma_lex_first_difference(b, a, 11);
        lemma_code_point_injective(a[11], b[11]);
    } else if a[12] != b[12] {
        lemma_lex_first_difference(b, a, 12);
        lemma_code_point_injective(a[12], b[12]);
    } else if a[13] != b[13] {
        lemma_lex_first_difference(b, a, 13);
        lemma_code_point_injective(a[13], b[13]);
    } else if a[14] != b[14] {
        lemma_lex_first_difference(b, a, 14);
        lemma_code_point_injective(a[14], b[14]);
    }
}

/// The character that writes the digit `d`.
pub open spec fn digit_of(d: int) -> char {
    if d == 0 {
        '0'
    } else if d == 1 {
        '1'
    } else if d == 2 {
        '2'
    } else if d == 3 {
        '3'
    } else if d == 4 {
        '4'
    } else if d == 5 {
        '5'
    } else if d == 6 {
        '6'
    } else if d == 7 {
        '7'
    } else if d == 8 {
        '8'
    } else {
        '9'
    }
}

/// The decimal text of `n`, without leading zeros.
pub open spec fn decimal_text(n: nat) -> Seq<char>
    decreases n,
{
    if n < 10 {
        seq![digit_of(n as int)]
    } else {
        decimal_text(n / 10).push(digit_of((n % 10) as int))
    }
}

/// The character that writes the digit `d`.
pub(crate) fn digit_char(d: u8) -> (c: char)
    requires
        d < 10,
    ensures
        c == digit_of(d as int),
{
    match d {
        0 => '0',
        1 => '1',
        2 => '2',
        3 => '3',
        4 => '4',
        5 => '5',
        6 => '6',
        7 => '7',
        8 => '8',
        _ => '9',
    }
}

/// Appends the two digits of `n`.
fn push_two(text: &mut String, n: u8)
    requires
        n <= 99,
    ensures
        final(text)@ == old(text)@ + two_text(n as int),
{
    text.push(digit_char(n / 10));
    text.push(digit_char(n % 10));
    assert(text@ =~= old(text)@ + two_text(n as int));
}

/// The decimal text of `n`, without leading zeros.
pub fn decimal_string(n: u64) -> (r: String)
    ensures
        r@ == decimal_text(n as nat),
    decreases n,
{
    if n < 10 {
        let mut text = String::new();
        text.push(digit_char(n as u8));
        assert(text@ =~= seq![digit_of(n as int)]);
        text
    } else {
        let mut text = decimal_string(n / 10);
        text.push(digit_char((n % 10) as u8));
        text
    }
}

/// A moment of local time, to the second, in the years that four digits
/// write.
#[derive(Clone, Copy, Debug, PartialEq, Eq, Structural)]
pub struct Timestamp {
    year: u16,
    month: u8,
    day: u8,
    hour: u8,
    minute: u8,
    second: u8,
}

/// The second as it is written, from the second of the clock and the
/// nanoseconds since it began: a thousand million nanoseconds or more stand
/// for a leap second, which is written as the second after.
pub open spec fn written_second(second: int, nanosecond: int) -> int {
    if nanosecond >= 1_000_000_000 {
        second + 1
    } else {
        second
    }
}

/// The moment that seven numbers of a clock stand for: year, month, day,
/// hour, minute, second, and the nanoseconds since the second began.
pub open spec fn clock_moment(c: (int, int, int, int, int, int, int)) -> (
    int,
    int,
    int,
    int,
    int,
    int,
) {
    (c.0, c.1, c.2, c.3, c.4, written_second(c.5, c.6))
}

/// The six numbers are those of a moment that a timestamp can hold; the
/// second goes up to 60, for a leap second.
pub open spec fn is_moment(m: (int, int, int, int, int, int)) -> bool {
    &&& 0 <= m.0 <= 9999
    &&& 1 <= m.1 <= 12
    &&& 1 <= m.2 <= 31
    &&& 0 <= m.3 <= 23
    &&& 0 <= m.4 <= 59
    &&& 0 <= m.5 <= 60
}

/// The two digits of a number below a hundred.
pub open spec fn two_text(n: int) -> Seq<char> {
    seq![digit_of(n / 10), digit_of(n % 10)]
}

/// The text `YYYYMMDDTHHMMSS` of a moment, every field padded with zeros.
pub open spec fn stamp_text(m: (int, int, int, int, int, int)) -> Seq<char> {
    two_text(m.0 / 100) + two_text(m.0 % 100) + two_text(m.1) + two_text(m.2) + seq!['T']
        + two_text(m.3) + two_text(m.4) + two_text(m.5)
}

/// The character of a digit is a digit and writes it.
pub proof fn lemma_digit_of(d: int)
    requires
        0 <= d <= 9,
    ensures
        is_digit(digit_of(d)),
        digit(digit_of(d)) == d,
{
}

/// A number below a hundred is its tens and its units.
proof fn lemma_split_two(n: int)
    requires
        0 <= n <= 99,
    ensures
        0 <= n / 10 <= 9,
        0 <= n % 10 <= 9,
        (n / 10) * 10 + n % 10 == n,
{
}

/// The two characters at `i` write `n`.
proof fn lemma_two_digits_written(text: Seq<char>, i: int, n: int)
    requires
        0 <= n <= 99,
        0 <= i,
        i + 1 < text.len(),
        text[i] == digit_of(n / 10),
        text[i + 1] == digit_of(n % 10),
    ensures
        is_digit(text[i]),
        is_digit(text[i + 1]),
        two_digits(text, i) == n,
{
    lemma_split_two(n);
    lemma_digit_of(n / 10);
    lemma_digit_of(n % 10);
}

/// The text of a moment is a timestamp prefix that writes this very moment,
/// and it stays one whatever follows it.
pub proof fn lemma_stamp_text_writes_moment(m: (int, int, int, int, int, int), rest: Seq<char>)
    requires
        is_moment(m),
    ensures
        stamp_text(m).len() == 15,
        has_timestamp_prefix(stamp_text(m) + rest),
        moment_of(stamp_text(m) + rest) == m,
{
    let text = stamp_text(m) + rest;
    let high = m.0 / 100;
    let low = m.0 % 100;
    assert(stamp_text(m).len() == 15);
    assert(text[0] == digit_of(high / 10) && text[1] == digit_of(high % 10));
    assert(text[2] == digit_of(low / 10) && text[3] == digit_of(low % 10));
    assert(text[4] == digit_of(m.1 / 10) && text[5] == digit_of(m.1 % 10));
    assert(text[6] == digit_of(m.2 / 10) && text[7] == digit_of(m.2 % 10));
    assert(text[8] == 'T');
    assert(text[9] == digit_of(m.3 / 10) && text[10] == digit_of(m.3 % 10));
    assert(text[11] == digit_of(m.4 / 10) && text[12] == digit_of(m.4 % 10));
    assert(text[13] == digit_of(m.5 / 10) && text[14] == digit_of(m.5 % 10));
    assert(0 <= high <= 99 && 0 <= low <= 99 && high * 100 + low == m.0);
    lemma_two_digits_written(text, 0, high);
    lemma_two_digits_written(text, 2, low);
    lemma_two_digits_written(text, 4, m.1);
    lemma_two_digits_written(text, 6, m.2);
    lemma_two_digits_written(text, 9, m.3);
    lemma_two_digits_written(text, 11, m.4);
    lemma_two_digits_written(text, 13, m.5);
    assert forall|i: int| 0 <= i < 15 && i != 8 implies is_digit(#[trigger] text[i]) by {
        if i == 0 || i == 1 || i == 2 || i == 3 || i == 4 || i == 5 || i == 6 || i == 7 {
        } else if i == 9 || i == 10 || i == 11 || i == 12 || i == 13 || i == 14 {
        }
    }
}

/// Later moments have greater texts: among timestamps the order of the
/// texts is the order of time.
pub proof fn lemma_stamp_order(
    a: (int, int, int, int, int, int),
    b: (int, int, int, int, int, int),
    rest_a: Seq<char>,
    rest_b: Seq<char>,
)
    requires
        is_moment(a),
        is_moment(b),
        lex_le(stamp_text(a) + rest_a, stamp_text(b) + rest_b),
    ensures
        moment_le(a, b),
{
    lemma_stamp_text_writes_moment(a, rest_a);
    lemma_stamp_text_writes_moment(b, rest_b);
    lemma_name_order_is_chronological(stamp_text(a) + rest_a, stamp_text(b) + rest_b);
}

impl Timestamp {
    #[verifier::type_invariant]
    spec fn in_range(self) -> bool {
        is_moment(self.moment())
    }

    /// Year, month, day, hour, minute and second.
    pub closed spec fn moment(self) -> (int, int, int, int, int, int) {
        (
            self.year as int,
            self.month as int,
            self.day as int,
            self.hour as int,
            self.minute as int,
            self.second as int,
        )
    }

    /// The timestamp of the given moment, where each number is in its range:
    /// a year of at most four digits, a month from 1 to 12, a day from 1 to
    /// 31, an hour up to 23, a minute up to 59 and a second up to 60.
    pub fn new(year: i32, month: u32, day: u32, hour: u32, minute: u32, second: u32) -> (r: Option<
        Timestamp,
    >)
        ensures
            match r {
                Some(t) => t.moment() == (
                    year as int,
                    month as int,
                    day as int,
                    hour as int,
                    minute as int,
                    second as int,
                ) && is_moment(t.moment()),
                None => !is_moment(
                    (
                        year as int,
                        month as int,
                        day as int,
                        hour as int,
                        minute as int,
                        second as int,
                    ),
                ),
            },
    {
        if 0 <= year && year <= 9999 && 1 <= month && month <= 12 && 1 <= day && day <= 31 && hour
            <= 23 && minute <= 59 && second <= 60 {
            Some(
                Timestamp {
                    year: year as u16,
                    month: month as u8,
                    day: day as u8,
                    hour: hour as u8,
                    minute: minute as u8,
                    second: second as u8,
                },
            )
        } else {
            None
        }
    }

    /// The timestamp of what a clock shows, the second given as the second
    /// of the clock and the nanoseconds since it began.
    pub fn from_clock(
        year: i32,
        month: u32,
        day: u32,
        hour: u32,
        minute: u32,
        second: u32,
        nanosecond: u32,
    ) -> (r: Option<Timestamp>)
        ensures
            match r {
                Some(t) => t.moment() == clock_moment(
                    (
                        year as int,
                        month as int,
                        day as int,
                        hour as int,
                        minute as int,
                        second as int,
                        nanosecond as int,
                    ),
                ) && is_moment(t.moment()),
                None => !is_moment(
                    clock_moment(
                        (
                            year as int,
                            month as int,
                            day as int,
                            hour as int,
                            minute as int,
                            second as int,
                            nanosecond as int,
                        ),
                    ),
                ),
            },
    {
        if second > 60 {
            return None;
        }
        let written: u32 = if nanosecond >= 1_000_000_000 {
            second + 1
        } else {
            second
        };
        Timestamp::new(year, month, day, hour, minute, written)
    }

    /// The year.
    pub fn year(&self) -> (r: u16)
        ensures
            r == self.moment().0,
            r <= 9999,
    {
        proof {
            use_type_invariant(self);
        }
        self.year
    }

    /// The month, from 1.
    pub fn month(&self) -> (r: u8)
        ensures
            r == self.moment().1,
            1 <= r <= 12,
    {
        proof {
            use_type_invariant(self);
        }
        self.month
    }

    /// The day of the month, from 1.
    pub fn day(&self) -> (r: u8)
        ensures
            r == self.moment().2,
            1 <= r <= 31,
    {
        proof {
            use_type_invariant(self);
        }
        self.day
    }

    /// The hour.
    pub fn hour(&self) -> (r: u8)
        ensures
            r == self.moment().3,
            r <= 23,
    {
        proof {
            use_type_invariant(self);
        }
        self.hour
    }

    /// The minute.
    pub fn minute(&self) -> (r: u8)
        ensures
            r == self.moment().4,
            r <= 59,
    {
        proof {
            use_type_invariant(self);
        }
        self.minute
    }

    /// The second.
    pub fn second(&self) -> (r: u8)
        ensures
            r == self.moment().5,
            r <= 60,
    {
        proof {
            use_type_invariant(self);
        }
        self.second
    }

    /// The second as a clock holds it: the second up to 59 and the
    /// nanoseconds since it began, a leap second as second 59 and a
    /// thousand million nanoseconds.
    pub fn clock_second(&self) -> (r: (u32, u32))
        ensures
            r.0 <= 59,
            written_second(r.0 as int, r.1 as int) == self.moment().5,
            r.1 == if self.moment().5 == 60 {
                1_000_000_000u32
            } else {
                0u32
            },
    {
        proof {
            use_type_invariant(self);
        }
        if self.second == 60 {
            (59, 1_000_000_000)
        } else {
            (self.second as u32, 0)
        }
    }

    /// The timestamp as it leads a record's name: `YYYYMMDDTHHMMSS`.
    pub fn file_stamp(&self) -> (r: String)
        ensures
            r@ == stamp_text(self.moment()),
            r@.len() == 15,
            has_timestamp_prefix(r@),
            moment_of(r@) == self.moment(),
    {
        proof {
            use_type_invariant(self);
        }
        let mut text = String::new();
        push_two(&mut text, (self.year / 100) as u8);
        push_two(&mut text, (self.year % 100) as u8);
        push_two(&mut text, self.month);
        push_two(&mut text, self.day);
        text.push('T');
        push_two(&mut text, self.hour);
        push_two(&mut text, self.minute);
        push_two(&mut text, self.second);
        proof {
            assert(text@ =~= stamp_text(self.moment()));
            lemma_stamp_text_writes_moment(self.moment(), Seq::empty());
            assert(stamp_text(self.moment()) + Seq::<char>::empty() =~= stamp_text(self.moment()));
        }
        text
    }

    /// The year as the name of its directory: in decimal, without padding.
    pub fn year_text(&self) -> (r: String)
        ensures
            r@ == decimal_text(self.moment().0 as nat),
    {
        decimal_string(self.year as u64)
    }
}

} // verus!
