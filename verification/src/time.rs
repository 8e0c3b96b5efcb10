//! Commit timestamps and the order in which they are compared.

use vstd::prelude::*;

use crate::text::optional_text;

verus! {

/// The time of a commit: seconds since the Unix epoch, and the offset from
/// UTC, in minutes, of the clock that recorded it.
#[derive(Clone, Copy, Debug, PartialEq, Eq, Structural)]
pub struct Timestamp {
    pub seconds: i64,
    pub offset_minutes: i32,
}

impl Timestamp {
    /// The pair by which timestamps are ordered: first the seconds, then the
    /// offset.
    pub open spec fn key(self) -> (int, int) {
        (self.seconds as int, self.offset_minutes as int)
    }

    /// The timestamp of a moment `seconds` after the Unix epoch, recorded
    /// by a clock `offset_minutes` ahead of UTC.
    pub fn new(seconds: i64, offset_minutes: i32) -> (t: Timestamp)
        ensures
            t.seconds == seconds,
            t.offset_minutes == offset_minutes,
    {
        Timestamp { seconds, offset_minutes }
    }

    /// Whether `self` is at or after `other`.
    pub fn at_or_after(&self, other: &Timestamp) -> (r: bool)
        ensures
            r == key_ge(self.key(), other.key()),
    {
        self.seconds > other.seconds || (self.seconds == other.seconds && self.offset_minutes
            >= other.offset_minutes)
    }

    /// Whether `self` is strictly after `other`.
    pub fn after(&self, other: &Timestamp) -> (r: bool)
        ensures
            r == !key_ge(other.key(), self.key()),
    {
        self.seconds > other.seconds || (self.seconds == other.seconds && self.offset_minutes
            > other.offset_minutes)
    }
}

/// Lexicographic "greater than or equal" on ordering keys.
pub open spec fn key_ge(a: (int, int), b: (int, int)) -> bool {
    a.0 > b.0 || (a.0 == b.0 && a.1 >= b.1)
}

/// The calendar date in UTC (year, month, day) of the moment that lies
/// `seconds` after the Unix epoch, as `chrono` computes it; nothing where
/// the moment is beyond the dates that `chrono` represents.
pub uninterp spec fn utc_date(seconds: int) -> Option<(int, int, int)>;

/// Asks `chrono` for the calendar date of a timestamp:
/// `chrono::DateTime::from_timestamp`, which gives nothing for a number of
/// seconds out of its range, then `year`, `month` and `day` of
/// `chrono::Datelike`. The date is a function of the seconds alone and is
/// named, not described.
#[verifier::external_body]
pub(crate) fn utc_date_of(seconds: i64) -> (date: Option<(i32, u32, u32)>)
    ensures
        match date {
            Some((year, month, day)) => utc_date(seconds as int) == Some(
                (year as int, month as int, day as int),
            ),
            None => utc_date(seconds as int) is None,
        },
{
    match chrono::DateTime::from_timestamp(seconds, 0) {
        Some(moment) => Some(
            (
                chrono::Datelike::year(&moment),
                chrono::Datelike::month(&moment),
                chrono::Datelike::day(&moment),
            ),
        ),
        None => None,
    }
}

/// The character of a decimal digit.
pub open spec fn digit_char(d: int) -> char {
    if d == 0 {
        '0'
    } else if d == 1 {
        '1'
    } else if d == 2 {
        '2'
    } else if d == 3 {
        '3'
    } else if d == 4 {
        '4'
    } else if d == 5 {
        '5'
    } else if d == 6 {
        '6'
    } else if d == 7 {
        '7'
    } else if d == 8 {
        '8'
    } else {
        '9'
    }
}

/// The decimal digits of `n`, without leading zeros.
pub open spec fn decimal(n: nat) -> Seq<char>
    decreases n,
{
    if n < 10 {
        seq![digit_char(n as int)]
    } else {
        decimal(n / 10).push(digit_char((n % 10) as int))
    }
}

/// The decimal digits of `n`, with zeros in front up to `width` digits.
pub open spec fn zero_padded(n: nat, width: nat) -> Seq<char> {
    let digits = decimal(n);
    if digits.len() >= width {
        digits
    } else {
        Seq::new((width - digits.len()) as nat, |i: int| '0') + digits
    }
}

/// A year in at least four digits. A year before 0 or after 9999 carries its
/// sign.
pub open spec fn year_text(year: int) -> Seq<char> {
    if 0 <= year <= 9999 {
        zero_padded(year as nat, 4)
    } else if year < 0 {
        seq!['-'] + zero_padded((-year) as nat, 4)
    } else {
        seq!['+'] + zero_padded(year as nat, 4)
    }
}

/// A date as `YYYY-MM-DD`.
pub open spec fn date_text(year: int, month: int, day: int) -> Seq<char> {
    year_text(year) + seq!['-'] + zero_padded(month as nat, 2) + seq!['-'] + zero_padded(
        day as nat,
        2,
    )
}

fn digit_of(d: u64) -> (c: char)
    requires
        d < 10,
    ensures
        c == digit_char(d as int),
{
    if d == 0 {
        '0'
    } else if d == 1 {
        '1'
    } else if d == 2 {
        '2'
    } else if d == 3 {
        '3'
    } else if d == 4 {
        '4'
    } else if d == 5 {
        '5'
    } else if d == 6 {
        '6'
    } else if d == 7 {
        '7'
    } else if d == 8 {
        '8'
    } else {
        '9'
    }
}

fn decimal_digits(n: u64) -> (digits: Vec<char>)
    ensures
        digits@ == decimal(n as nat),
    decreases n,
{
    if n < 10 {
        let mut digits: Vec<char> = Vec::new();
        digits.push(digit_of(n));
        assert(digits@ =~= seq![digit_char(n as int)]);
        digits
    } else {
        let mut digits = decimal_digits(n / 10);
        digits.push(digit_of(n % 10));
        digits
    }
}

/// Appends `n` in decimal, with zeros in front up to `width` digits.
fn push_zero_padded(out: &mut String, n: u64, width: usize)
    ensures
        final(out)@ == old(out)@ + zero_padded(n as nat, width as nat),
{
    let digits = decimal_digits(n);
    let ghost start = out@;
    let mut zeros: usize = 0;
    if digits.len() < width {
        let wanted = width - digits.len();
        while zeros < wanted
            invariant
                zeros <= wanted,
                out@ == start + Seq::new(zeros as nat, |i: int| '0'),
            decreases wanted - zeros,
        {
            out.push('0');
            assert(out@ =~= start + Seq::new((zeros + 1) as nat, |i: int| '0'));
            zeros += 1;
        }
    } else {
        assert(out@ =~= start + Seq::new(0nat, |i: int| '0'));
    }
    let ghost padded = out@;
    let mut i: usize = 0;
    while i < digits.len()
        invariant
            i <= digits.len(),
            out@ == padded + digits@.take(i as int),
        decreases digits.len() - i,
    {
        out.push(digits[i]);
        assert(out@ =~= padded + digits@.take(i + 1));
        i += 1;
    }
    assert(digits@.take(digits.len() as int) =~= digits@);
    assert(out@ =~= start + zero_padded(n as nat, width as nat));
}

/// Writes a date as `YYYY-MM-DD`.
pub fn format_date(year: i32, month: u32, day: u32) -> (text: String)
    ensures
        text@ == date_text(year as int, month as int, day as int),
{
    let mut text = String::new();
    if year < 0 {
        text.push('-');
        push_zero_padded(&mut text, (-(year as i64)) as u64, 4);
    } else if year > 9999 {
        text.push('+');
        push_zero_padded(&mut text, year as u64, 4);
    } else {
        push_zero_padded(&mut text, year as u64, 4);
    }
    text.push('-');
    push_zero_padded(&mut text, month as u64, 2);
    text.push('-');
    push_zero_padded(&mut text, day as u64, 2);
    assert(text@ =~= date_text(year as int, month as int, day as int));
    text
}

impl Timestamp {
    /// The date of the timestamp in UTC, as `YYYY-MM-DD`; nothing where the
    /// calendar does not reach that far.
    pub fn utc_date_text(&self) -> (text: Option<String>)
        ensures
            optional_text(text) == match utc_date(self.seconds as int) {
                Some((year, month, day)) => Some(date_text(year, month, day)),
                None => None,
            },
    {
        match utc_date_of(self.seconds) {
            Some((year, month, day)) => Some(format_date(year, month, day)),
            None => None,
        }
    }
}

} // verus!
