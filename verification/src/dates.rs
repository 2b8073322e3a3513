//! The custom date of a command line: `today@HH:MM`, or a date and a time
//! to the minute or to the second.

use crate::errors::MyErrors;
use crate::stamp::{clock_moment, is_moment, Timestamp};
use crate::text::{starts_with, str_starts_with};
use vstd::prelude::*;
use vstd::string::{StrSliceExecFns, StringExecFns};
use vstd::utf8::encode_utf8;

verus! {

/// What `chrono` reads from `text` by `format`: year, month, day, hour,
/// minute, second and the nanoseconds since the second began, or nothing
/// where the text does not parse.
pub uninterp spec fn parsed_datetime(text: Seq<char>, format: Seq<char>) -> Option<
    (int, int, int, int, int, int, int),
>;

/// Calls `NaiveDateTime::parse_from_str` of `chrono` and takes the seven
/// fields of the date and time it gives. The contract only names the result:
/// what is parsed depends on the text and the format alone.
#[verifier::external_body]
fn parse_naive(text: &str, format: &str) -> (r: Result<
    (i32, u32, u32, u32, u32, u32, u32),
    chrono::format::ParseError,
>)
    ensures
        match r {
            Ok(f) => parsed_datetime(text@, format@) == Some(fields_of(f)),
            Err(_) => parsed_datetime(text@, format@) is None,
        },
{
    let t = chrono::NaiveDateTime::parse_from_str(text, format)?;
    Ok(
        (
            chrono::Datelike::year(&t),
            chrono::Datelike::month(&t),
            chrono::Datelike::day(&t),
            chrono::Timelike::hour(&t),
            chrono::Timelike::minute(&t),
            chrono::Timelike::second(&t),
            chrono::Timelike::nanosecond(&t),
        ),
    )
}

/// Seven fields of a clock as mathematical integers.
pub open spec fn fields_of(f: (i32, u32, u32, u32, u32, u32, u32)) -> (
    int,
    int,
    int,
    int,
    int,
    int,
    int,
) {
    (f.0 as int, f.1 as int, f.2 as int, f.3 as int, f.4 as int, f.5 as int, f.6 as int)
}

/// The length of a text in the bytes of its UTF-8 form.
pub open spec fn byte_len(text: Seq<char>) -> nat {
    encode_utf8(text).len()
}

/// The text is the shorthand for a time of today: `today@` and five more
/// bytes.
pub open spec fn is_today_shorthand(text: Seq<char>) -> bool {
    byte_len(text) == 11 && starts_with(text, "today@"@)
}

/// The text to parse: for the shorthand the date of today, a `T` and what
/// follows `today@`; any other text as it is.
pub open spec fn expanded_datetime(text: Seq<char>, today: Seq<char>) -> Seq<char> {
    if is_today_shorthand(text) {
        today + "T"@ + text.skip(6)
    } else {
        text
    }
}

/// The format by which a text is parsed, chosen by the text's length: 16
/// bytes to the minute, 19 to the second, no other length.
pub open spec fn format_of(text: Seq<char>) -> Option<Seq<char>> {
    if byte_len(text) == 16 {
        Some("%Y-%m-%dT%H:%M"@)
    } else if byte_len(text) == 19 {
        Some("%Y-%m-%dT%H:%M:%S"@)
    } else {
        None
    }
}

/// The text to parse for a custom date, with the shorthand for today written
/// out; `today` is the date of today as `YYYY-MM-DD`.
pub fn expand_datetime(text: &str, today: &str) -> (r: String)
    ensures
        r@ == expanded_datetime(text@, today@),
{
    if text.as_bytes().len() == 11 && str_starts_with(text, "today@") {
        proof {
            reveal_strlit("today@");
        }
        let time = text.substring_char(6, text.unicode_len());
        let mut full = String::from_str(today);
        full.append("T");
        full.append(time);
        proof {
            assert(time@ =~= text@.skip(6));
        }
        full
    } else {
        String::from_str(text)
    }
}

/// The format for a text of a custom date; a text of another length than
/// the two accepted is refused.
pub fn datetime_format(text: &str) -> (r: Result<&'static str, MyErrors>)
    ensures
        match format_of(text@) {
            Some(format) => r matches Ok(f) && f@ == format,
            None => r == Err::<&'static str, MyErrors>(MyErrors::InvalidCustomDatetime),
        },
{
    let n = text.as_bytes().len();
    if n == 16 {
        Ok("%Y-%m-%dT%H:%M")
    } else if n == 19 {
        Ok("%Y-%m-%dT%H:%M:%S")
    } else {
        Err(MyErrors::InvalidCustomDatetime)
    }
}

/// The timestamp of seven parsed fields, a leap second written as second
/// 60; fields outside the ranges of a timestamp are refused as no date of
/// the accepted form.
pub fn timestamp_from_fields(fields: (i32, u32, u32, u32, u32, u32, u32)) -> (r: Result<
    Timestamp,
    MyErrors,
>)
    ensures
        match r {
            Ok(t) => t.moment() == clock_moment(fields_of(fields)) && is_moment(t.moment()),
            Err(e) => e == MyErrors::InvalidCustomDatetime && !is_moment(
                clock_moment(fields_of(fields)),
            ),
        },
{
    match Timestamp::from_clock(
        fields.0,
        fields.1,
        fields.2,
        fields.3,
        fields.4,
        fields.5,
        fields.6,
    ) {
        Some(t) => Ok(t),
        None => Err(MyErrors::InvalidCustomDatetime),
    }
}

/// Reads a custom date: `today@HH:MM`, `YYYY-MM-DDTHH:MM` or
/// `YYYY-MM-DDTHH:MM:SS`. A text of another length is refused, and so is a
/// year beyond four digits; a text of an accepted length that does not
/// parse fails with the parser's error. A leap second is kept, as second 60.
pub fn read_custom_date(text: &str, today: &str) -> (r: Result<Timestamp, MyErrors>)
    ensures
        match format_of(expanded_datetime(text@, today@)) {
            None => r == Err::<Timestamp, MyErrors>(MyErrors::InvalidCustomDatetime),
            Some(format) => match parsed_datetime(expanded_datetime(text@, today@), format) {
                None => r matches Err(MyErrors::CannotParseCustomDate(_)),
                Some(fields) => if is_moment(clock_moment(fields)) {
                    r matches Ok(t) && t.moment() == clock_moment(fields)
                } else {
                    r == Err::<Timestamp, MyErrors>(MyErrors::InvalidCustomDatetime)
                },
            },
        },
{
    let full = expand_datetime(text, today);
    let format = match datetime_format(full.as_str()) {
        Ok(f) => f,
        Err(e) => {
            return Err(e);
        },
    };
    match parse_naive(full.as_str(), format) {
        Ok(fields) => timestamp_from_fields(fields),
        Err(e) => Err(MyErrors::CannotParseCustomDate(e)),
    }
}

} // verus!
