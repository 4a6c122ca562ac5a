//! When a recording was started.

use vstd::prelude::*;

use crate::number::is_digit;

verus! {

/// Whether `text` is a date and time that `chrono::DateTime::parse_from_rfc3339` accepts.
pub uninterp spec fn is_rfc3339(text: Seq<char>) -> bool;

/// The pattern that shows the date as `YYYY-MM-DD`.
pub const DATE_PATTERN: &'static str = "%Y-%m-%d";

/// The pattern that shows the time of day as `HH-MM-SS`.
pub const CLOCK_PATTERN: &'static str = "%H-%M-%S";

/// Whether a text begins like `2026-04-24T07:55:31` and goes on with at least
/// one character.
pub open spec fn begins_with_date_and_time(t: Seq<char>) -> bool {
    &&& t.len() >= 20
    &&& is_digit(t[0]) && is_digit(t[1]) && is_digit(t[2]) && is_digit(t[3]) && t[4] == '-'
    &&& is_digit(t[5]) && is_digit(t[6]) && t[7] == '-'
    &&& is_digit(t[8]) && is_digit(t[9])
    &&& is_digit(t[11]) && is_digit(t[12]) && t[13] == ':'
    &&& is_digit(t[14]) && is_digit(t[15]) && t[16] == ':'
    &&& is_digit(t[17]) && is_digit(t[18])
}

/// The date at the beginning of such a text.
pub open spec fn date_of(t: Seq<char>) -> Seq<char> {
    t.subrange(0, 10)
}

/// The time of day of such a text, with hyphens in place of colons.
pub open spec fn clock_of(t: Seq<char>) -> Seq<char> {
    t.subrange(11, 13) + seq!['-'] + t.subrange(14, 16) + seq!['-'] + t.subrange(17, 19)
}

/// chrono's `DateTime::parse_from_rfc3339`, and `DateTime::format` on what it gives.
///
/// The first accepts a text or not, and which texts it accepts has the name
/// [`is_rfc3339`]. One that it accepts begins with four digits, a hyphen, two
/// digits, a hyphen, two digits, a separator, and three pairs of digits with
/// colons between them, and has a time zone behind that. The second shows the
/// date and the time as they stand there: not converted to another time zone,
/// and a leap second as 60.
#[verifier::external_body]
fn render_rfc3339(text: &str, pattern: &str) -> (r: Option<String>)
    requires
        pattern@ == DATE_PATTERN@ || pattern@ == CLOCK_PATTERN@,
    ensures
        r is Some == is_rfc3339(text@),
        r is Some ==> begins_with_date_and_time(text@),
        r is Some && pattern@ == DATE_PATTERN@ ==> r->0@ == date_of(text@),
        r is Some && pattern@ == CLOCK_PATTERN@ ==> r->0@ == clock_of(text@),
{
    match chrono::DateTime::parse_from_rfc3339(text) {
        Ok(time) => Some(time.format(pattern).to_string()),
        Err(_) => None,
    }
}

/// The date and the time of day at which a recording was started, where it
/// was started, as they are written in the names of files.
#[derive(Debug, Clone)]
pub struct Timestamp {
    /// `YYYY-MM-DD`
    pub date: String,
    /// `HH-MM-SS`
    pub clock: String,
}

/// Whether a text is two digits, a hyphen, two digits, a hyphen and two digits.
pub open spec fn is_clock(s: Seq<char>) -> bool {
    &&& s.len() == 8
    &&& is_digit(s[0]) && is_digit(s[1]) && s[2] == '-'
    &&& is_digit(s[3]) && is_digit(s[4]) && s[5] == '-'
    &&& is_digit(s[6]) && is_digit(s[7])
}

/// Whether a text is four digits, a hyphen, two digits, a hyphen and two digits.
pub open spec fn is_date(s: Seq<char>) -> bool {
    &&& s.len() == 10
    &&& is_digit(s[0]) && is_digit(s[1]) && is_digit(s[2]) && is_digit(s[3]) && s[4] == '-'
    &&& is_digit(s[5]) && is_digit(s[6]) && s[7] == '-'
    &&& is_digit(s[8]) && is_digit(s[9])
}

impl Timestamp {
    pub open spec fn wf(self) -> bool {
        is_date(self.date@) && is_clock(self.clock@)
    }

    /// The date and the time that an RFC 3339 text stands for.
    pub fn parse(text: &str) -> (r: Option<Timestamp>)
        ensures
            r is Some == is_rfc3339(text@),
            r matches Some(t) ==> {
                &&& t.wf()
                &&& begins_with_date_and_time(text@)
                &&& t.date@ == date_of(text@)
                &&& t.clock@ == clock_of(text@)
            },
    {
        match (render_rfc3339(text, DATE_PATTERN), render_rfc3339(text, CLOCK_PATTERN)) {
            (Some(date), Some(clock)) => Some(Timestamp { date, clock }),
            _ => None,
        }
    }
}

// ── Laws ─────────────────────────────────────────────────────────────────

/// The date and the time of day stand as they are written, with hyphens
/// between hours, minutes and seconds.
pub proof fn law_date_and_time_as_written(t: Seq<char>)
    requires
        t.len() >= 20,
    ensures
        date_of(t) == t.take(10),
        clock_of(t) == seq![t[11], t[12], '-', t[14], t[15], '-', t[17], t[18]],
{
    assert(date_of(t) =~= t.take(10));
    assert(clock_of(t) =~= seq![t[11], t[12], '-', t[14], t[15], '-', t[17], t[18]]);
}

} // verus!
