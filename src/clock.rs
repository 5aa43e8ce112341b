use vstd::prelude::*;
use crate::civil::{Stamp, TimeOfDay};

verus! {

#[verifier::external_type_specification]
#[verifier::external_body]
pub struct ExJiffError(jiff::Error);

/// The decimal digit for `d`, in `0..10`.
pub open spec fn digit(d: int) -> char {
    ((d + '0' as int) as u32) as char
}

pub open spec fn is_digit(c: char) -> bool {
    '0' <= c <= '9'
}

pub open spec fn digit_value(c: char) -> int {
    c as int - '0' as int
}

/// What a string of the form `HH:MM` (two digits each, a 24-hour clock)
/// denotes; `None` for any other string.
pub open spec fn hh_mm(s: Seq<char>) -> Option<TimeOfDay> {
    if hh_mm_shape(s) {
        let h = digit_value(s[0]) * 10 + digit_value(s[1]);
        let m = digit_value(s[3]) * 10 + digit_value(s[4]);
        if h < 24 && m < 60 {
            Some(TimeOfDay { hour: h as i8, minute: m as i8, second: 0, nanosecond: 0 })
        } else {
            None
        }
    } else {
        None
    }
}

/// Two decimal digits of `n`, zero-padded.
pub open spec fn two_digits(n: int) -> Seq<char> {
    seq![digit(n / 10), digit(n % 10)]
}

/// Four decimal digits of `n`, zero-padded.
pub open spec fn four_digits(n: int) -> Seq<char> {
    seq![digit(n / 1000), digit((n / 100) % 10), digit((n / 10) % 10), digit(n % 10)]
}

/// A year in four digits, after a minus sign when it is negative.
pub open spec fn year_text(y: int) -> Seq<char> {
    if y < 0 {
        seq!['-'] + four_digits(-y)
    } else {
        four_digits(y)
    }
}

/// `YYYY-MM-DD at HH:MM`.
pub open spec fn display_text_spec(t: Stamp) -> Seq<char> {
    year_text(t.year as int) + seq!['-'] + two_digits(t.month as int) + seq!['-']
        + two_digits(t.day as int) + seq![' ', 'a', 't', ' '] + two_digits(t.hour as int)
        + seq![':'] + two_digits(t.minute as int)
}

/// The decimal digits of `n`, without leading zeros.
pub open spec fn decimal(n: nat) -> Seq<char>
    decreases n,
{
    if n < 10 {
        seq![digit(n as int)]
    } else {
        decimal(n / 10).push(digit((n % 10) as int))
    }
}

/// Two digits, a colon and two digits.
pub open spec fn hh_mm_shape(s: Seq<char>) -> bool {
    s.len() == 5 && is_digit(s[0]) && is_digit(s[1]) && s[2] == ':' && is_digit(s[3]) && is_digit(s[4])
}

/// What jiff's time-of-day parser makes of a string.
pub uninterp spec fn parsed_time_of(s: Seq<char>) -> Option<TimeOfDay>;

/// How jiff's friendly span format writes the span from `since` to `t`.
pub uninterp spec fn elapsed_text_of(t: Stamp, since: Stamp) -> Seq<char>;

fn digit_str(d: u64) -> (r: &'static str)
    requires
        d < 10,
    ensures
        r@ == seq![digit(d as int)],
{
    proof {
        reveal_strlit("0");
        reveal_strlit("1");
        reveal_strlit("2");
        reveal_strlit("3");
        reveal_strlit("4");
        reveal_strlit("5");
        reveal_strlit("6");
        reveal_strlit("7");
        reveal_strlit("8");
        reveal_strlit("9");
    }
    match d {
        0 => "0",
        1 => "1",
        2 => "2",
        3 => "3",
        4 => "4",
        5 => "5",
        6 => "6",
        7 => "7",
        8 => "8",
        _ => "9",
    }
}

/// The decimal digits of `n`.
pub(crate) fn decimal_text(n: u64) -> (r: String)
    ensures
        r@ == decimal(n as nat),
    decreases n,
{
    if n < 10 {
        String::from_str(digit_str(n))
    } else {
        let mut s = decimal_text(n / 10);
        s.append(digit_str(n % 10));
        s
    }
}

/// Relies on jiff::Zoned::now and its conversion to jiff::civil::DateTime:
/// the current wall-clock time in the system's time zone, a valid datetime.
#[verifier::external_body]
pub(crate) fn now_local() -> (r: Stamp)
    ensures
        r.wf(),
{
    let d = jiff::civil::DateTime::from(jiff::Zoned::now());
    Stamp {
        year: d.year(),
        month: d.month(),
        day: d.day(),
        hour: d.hour(),
        minute: d.minute(),
        second: d.second(),
        nanosecond: d.subsec_nanosecond(),
    }
}

/// Relies on `str::parse::<jiff::civil::Time>` (jiff's ISO 8601 time parser):
/// a valid time of day that depends on the string alone, `HH:MM` read as
/// that hour and minute, and an error for the empty string and for that
/// shape with an hour past 23 or a minute past 59.
#[verifier::external_body]
pub(crate) fn parse_time_of_day(s: &str) -> (r: Result<TimeOfDay, jiff::Error>)
    ensures
        r is Ok <==> parsed_time_of(s@) is Some,
        r is Ok ==> r->Ok_0.wf() && parsed_time_of(s@) == Some(r->Ok_0),
        hh_mm(s@) is Some ==> r is Ok && r->Ok_0 == hh_mm(s@)->Some_0,
        s@.len() == 0 ==> r is Err,
        hh_mm_shape(s@) && hh_mm(s@) is None ==> r is Err,
{
    let t: jiff::civil::Time = s.parse()?;
    Ok(TimeOfDay {
        hour: t.hour(),
        minute: t.minute(),
        second: t.second(),
        nanosecond: t.subsec_nanosecond(),
    })
}

/// Relies on jiff::civil::DateTime::round with jiff::Unit::Minute: from the
/// year 1 on, the nearest minute, half a minute rounding up (jiff's default
/// mode), and an error where that passes the last datetime of the year 9999.
/// Before the year 1 jiff carries a rounded-up day differently, and nothing
/// is stated there.
#[verifier::external_body]
pub(crate) fn round_to_minute(t: &Stamp) -> (r: Result<Stamp, jiff::Error>)
    requires
        t.wf(),
    ensures
        r is Ok ==> r->Ok_0.wf(),
        1 <= t.year ==> (r is Ok <==> t.round_minute_spec() is Some),
        1 <= t.year && r is Ok ==> r->Ok_0 == t.round_minute_spec()->Some_0,
{
    let d = jiff::civil::date(t.year, t.month, t.day).at(t.hour, t.minute, t.second, t.nanosecond);
    let d = d.round(jiff::Unit::Minute)?;
    Ok(Stamp {
        year: d.year(),
        month: d.month(),
        day: d.day(),
        hour: d.hour(),
        minute: d.minute(),
        second: d.second(),
        nanosecond: d.subsec_nanosecond(),
    })
}

/// Relies on jiff::civil::DateTime::since and the alternate (friendly) format
/// of jiff::Span: text such as `2h 15m ago` that depends on the two datetimes
/// alone. The difference of two datetimes always fits in a span.
#[verifier::external_body]
pub(crate) fn elapsed_text(t: &Stamp, since: &Stamp) -> (r: String)
    requires
        t.wf(),
        since.wf(),
    ensures
        r@ == elapsed_text_of(*t, *since),
{
    let a = jiff::civil::date(t.year, t.month, t.day).at(t.hour, t.minute, t.second, t.nanosecond);
    let b = jiff::civil::date(since.year, since.month, since.day)
        .at(since.hour, since.minute, since.second, since.nanosecond);
    format!("{:#}", a.since(b).expect("a span holds any difference of two datetimes"))
}

/// Relies on jiff::civil::DateTime::to_zoned in UTC and
/// jiff::Zoned::strftime with `%F at %H:%M`: the date and the minute in
/// fixed-width digits (a negative year after a minus sign), and an error
/// only near the ends of the range of years.
#[verifier::external_body]
pub(crate) fn display_text(t: &Stamp) -> (r: Result<String, jiff::Error>)
    requires
        t.wf(),
    ensures
        r is Ok ==> r->Ok_0@ == display_text_spec(*t),
        -9998 <= t.year <= 9998 ==> r is Ok,
{
    let d = jiff::civil::date(t.year, t.month, t.day).at(t.hour, t.minute, t.second, t.nanosecond);
    let z = d.to_zoned(jiff::tz::TimeZone::UTC)?;
    Ok(z.strftime("%F at %H:%M").to_string())
}

} // verus!
