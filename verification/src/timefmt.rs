//! Calendar fields of message timestamps. An RFC 3339 timestamp is parsed by
//! chrono into plain year/month/day/hour/minute fields; the header time label
//! and the calendar-hour comparison are computed here from those fields.

use vstd::prelude::*;
use crate::numfmt::digit_char;

verus! {

/// The calendar fields of one parsed timestamp, in its own offset.
#[derive(PartialEq, Eq, Structural, Clone, Copy, Debug)]
pub struct TimeParts {
    pub year: i32,
    pub month: u32,
    pub day: u32,
    pub hour: u32,
    pub minute: u32,
}

/// What chrono's RFC 3339 parser yields for a string: its calendar fields,
/// or nothing when the string does not parse.
pub uninterp spec fn rfc3339_parts(s: Seq<char>) -> Option<TimeParts>;

/// Relies on `chrono::DateTime::parse_from_rfc3339` and the `Datelike` and
/// `Timelike` accessors: the outcome is a function of the string alone, and
/// the documented field ranges hold (month 1-12, day 1-31, hour 0-23,
/// minute 0-59).
#[verifier::external_body]
pub fn parse_rfc3339(s: &str) -> (r: Option<TimeParts>)
    ensures
        r == rfc3339_parts(s@),
        match r {
            Some(t) => 1 <= t.month <= 12 && 1 <= t.day <= 31 && t.hour <= 23 && t.minute <= 59,
            None => true,
        },
{
    match chrono::DateTime::parse_from_rfc3339(s) {
        Ok(d) => Some(TimeParts {
            year: chrono::Datelike::year(&d),
            month: chrono::Datelike::month(&d),
            day: chrono::Datelike::day(&d),
            hour: chrono::Timelike::hour(&d),
            minute: chrono::Timelike::minute(&d),
        }),
        Err(_) => None,
    }
}

/// Two timestamps fall in the same calendar hour.
pub open spec fn same_calendar_hour(a: TimeParts, b: TimeParts) -> bool {
    a.year == b.year && a.month == b.month && a.day == b.day && a.hour == b.hour
}

/// Runtime test for [`same_calendar_hour`].
pub fn check_same_calendar_hour(a: &TimeParts, b: &TimeParts) -> (r: bool)
    ensures
        r == same_calendar_hour(*a, *b),
{
    a.year == b.year && a.month == b.month && a.day == b.day && a.hour == b.hour
}

/// The three-letter abbreviation of a month.
pub open spec fn month_abbrev(m: int) -> Seq<char> {
    if m == 1 {
        "Jan"@
    } else if m == 2 {
        "Feb"@
    } else if m == 3 {
        "Mar"@
    } else if m == 4 {
        "Apr"@
    } else if m == 5 {
        "May"@
    } else if m == 6 {
        "Jun"@
    } else if m == 7 {
        "Jul"@
    } else if m == 8 {
        "Aug"@
    } else if m == 9 {
        "Sep"@
    } else if m == 10 {
        "Oct"@
    } else if m == 11 {
        "Nov"@
    } else {
        "Dec"@
    }
}

/// The month's three-letter abbreviation as characters.
pub fn month_name(m: u32) -> (r: Vec<char>)
    ensures
        r@ == month_abbrev(m as int),
        r@.len() == 3,
{
    proof {
        reveal_strlit("Jan");
        reveal_strlit("Feb");
        reveal_strlit("Mar");
        reveal_strlit("Apr");
        reveal_strlit("May");
        reveal_strlit("Jun");
        reveal_strlit("Jul");
        reveal_strlit("Aug");
        reveal_strlit("Sep");
        reveal_strlit("Oct");
        reveal_strlit("Nov");
        reveal_strlit("Dec");
    }
    if m == 1 {
        crate::textops::str_chars("Jan")
    } else if m == 2 {
        crate::textops::str_chars("Feb")
    } else if m == 3 {
        crate::textops::str_chars("Mar")
    } else if m == 4 {
        crate::textops::str_chars("Apr")
    } else if m == 5 {
        crate::textops::str_chars("May")
    } else if m == 6 {
        crate::textops::str_chars("Jun")
    } else if m == 7 {
        crate::textops::str_chars("Jul")
    } else if m == 8 {
        crate::textops::str_chars("Aug")
    } else if m == 9 {
        crate::textops::str_chars("Sep")
    } else if m == 10 {
        crate::textops::str_chars("Oct")
    } else if m == 11 {
        crate::textops::str_chars("Nov")
    } else {
        crate::textops::str_chars("Dec")
    }
}

/// A number under 100 as two zero-padded decimal digits.
pub open spec fn two_digits(n: int) -> Seq<char> {
    seq![digit_char((n / 10) as nat), digit_char((n % 10) as nat)]
}

/// Format a number under 100 as two zero-padded digits.
pub fn format_two_digits(n: u32) -> (r: Vec<char>)
    requires
        n <= 99,
    ensures
        r@ == two_digits(n as int),
{
    let mut r: Vec<char> = Vec::new();
    let hi: u32 = n / 10;
    let lo: u32 = n % 10;
    r.push(digit_of(hi));
    r.push(digit_of(lo));
    proof {
        assert(r@ =~= two_digits(n as int));
    }
    r
}

fn digit_of(d: u32) -> (c: char)
    requires
        d < 10,
    ensures
        c == digit_char(d as nat),
{
    if d == 0 {
        '0'
    } else if d == 1 {
        '1'
    } else if d == 2 {
        '2'
    } else if d == 3 {
        '3'
    } else if d == 4 {
        '4'
    } else if d == 5 {
        '5'
    } else if d == 6 {
        '6'
    } else if d == 7 {
        '7'
    } else if d == 8 {
        '8'
    } else {
        '9'
    }
}

/// The time label of a message header: abbreviated month, day, hour and
/// minute, the numbers zero-padded to two digits.
pub open spec fn spec_header_time(t: TimeParts) -> Seq<char> {
    month_abbrev(t.month as int) + seq![' '] + two_digits(t.day as int) + seq![' '] + two_digits(
        t.hour as int,
    ) + seq![':'] + two_digits(t.minute as int)
}

/// Format the time label of a message header.
pub fn header_time(t: &TimeParts) -> (r: Vec<char>)
    requires
        t.day <= 99,
        t.hour <= 99,
        t.minute <= 99,
    ensures
        r@ == spec_header_time(*t),
        r@.len() == 12,
{
    let mut r = month_name(t.month);
    r.push(' ');
    let d = format_two_digits(t.day);
    crate::textops::extend_range(&mut r, &d, 0, d.len());
    r.push(' ');
    let h = format_two_digits(t.hour);
    crate::textops::extend_range(&mut r, &h, 0, h.len());
    r.push(':');
    let m = format_two_digits(t.minute);
    crate::textops::extend_range(&mut r, &m, 0, m.len());
    proof {
        assert(d@.subrange(0, d@.len() as int) =~= d@);
        assert(h@.subrange(0, h@.len() as int) =~= h@);
        assert(m@.subrange(0, m@.len() as int) =~= m@);
        assert(r@ =~= spec_header_time(*t));
    }
    r
}

} // verus!
