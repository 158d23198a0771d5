//! Dates and times of day as listing pages give them ("last updated"), read
//! through `chrono` and written as `chrono`'s `NaiveDateTime` displays itself.

use vstd::prelude::*;
use chrono::{Datelike, Timelike};
use crate::numbers::{
    all_digits, count_of, decimal_digits, digits_value, lemma_decimal_len, lemma_padded_reads_back,
    padded_digits, pow10, write_padded, ParseCountError,
};
use crate::text::push_char;

verus! {

/// A calendar date and time of day without a time zone, held field by field as
/// `chrono::NaiveDateTime` hands them out. A `nanosecond` of a billion or more
/// marks a leap second.
#[derive(Debug, Clone, Copy, PartialEq, Eq, Structural)]
pub struct Timestamp {
    pub year: i32,
    pub month: u32,
    pub day: u32,
    pub hour: u32,
    pub minute: u32,
    pub second: u32,
    pub nanosecond: u32,
}

/// A leap year of the proleptic Gregorian calendar.
pub open spec fn is_leap_year(year: int) -> bool {
    (year % 4 == 0 && year % 100 != 0) || year % 400 == 0
}

/// The number of days of a month.
pub open spec fn days_in_month(year: int, month: int) -> int {
    if month == 2 {
        if is_leap_year(year) {
            29
        } else {
            28
        }
    } else if month == 4 || month == 6 || month == 9 || month == 11 {
        30
    } else {
        31
    }
}

impl Timestamp {
    /// A date and time that `chrono` can hold: a year within its range, a day
    /// that exists in its month, and a time of day.
    pub open spec fn valid(self) -> bool {
        &&& -262143 <= self.year <= 262142
        &&& 1 <= self.month <= 12
        &&& 1 <= self.day <= days_in_month(self.year as int, self.month as int)
        &&& self.hour < 24
        &&& self.minute < 60
        &&& self.second < 60
        &&& self.nanosecond < 2_000_000_000
    }

    /// Midnight at the start of 1970-01-01, what `NaiveDateTime::default()` is.
    pub fn epoch() -> (r: Timestamp)
        ensures
            r == (Timestamp {
                year: 1970,
                month: 1,
                day: 1,
                hour: 0,
                minute: 0,
                second: 0,
                nanosecond: 0,
            }),
            r.valid(),
    {
        Timestamp { year: 1970, month: 1, day: 1, hour: 0, minute: 0, second: 0, nanosecond: 0 }
    }
}

/// The year as `NaiveDate` displays it: four digits for years 0 to 9999, and
/// otherwise a sign followed by at least four digits.
pub open spec fn year_text(year: int) -> Seq<char> {
    if 0 <= year <= 9999 {
        padded_digits(year as nat, 4)
    } else if year > 9999 {
        seq!['+'] + padded_digits(year as nat, 4)
    } else {
        seq!['-'] + padded_digits((-year) as nat, 4)
    }
}

/// The fraction of a second as `NaiveTime` displays it: nothing for a whole
/// second, otherwise a point and three, six or nine digits, the fewest that
/// hold the value.
pub open spec fn fraction_text(nano: nat) -> Seq<char> {
    if nano == 0 {
        Seq::<char>::empty()
    } else if nano % 1_000_000 == 0 {
        seq!['.'] + padded_digits(nano / 1_000_000, 3)
    } else if nano % 1_000 == 0 {
        seq!['.'] + padded_digits(nano / 1_000, 6)
    } else {
        seq!['.'] + padded_digits(nano, 9)
    }
}

/// A timestamp as `NaiveDateTime`'s `Display` writes it:
/// `YYYY-MM-DD hh:mm:ss`, then the fraction of the second if there is one; a
/// leap second shows as second 60.
pub open spec fn timestamp_text(t: Timestamp) -> Seq<char> {
    let leap = t.nanosecond >= 1_000_000_000;
    let second: nat = if leap { t.second as nat + 1 } else { t.second as nat };
    let nano: nat = if leap { (t.nanosecond - 1_000_000_000) as nat } else { t.nanosecond as nat };
    year_text(t.year as int) + seq!['-'] + padded_digits(t.month as nat, 2) + seq!['-']
        + padded_digits(t.day as nat, 2) + seq![' '] + padded_digits(t.hour as nat, 2) + seq![
        ':',
    ] + padded_digits(t.minute as nat, 2) + seq![':'] + padded_digits(second, 2)
        + fraction_text(nano)
}

/// Appends the year as `NaiveDate` displays it.
fn write_year(out: &mut String, y: i32)
    ensures
        final(out)@ == old(out)@ + year_text(y as int),
{
    let ghost start = out@;
    if 0 <= y && y <= 9999 {
        write_padded(out, y as u64, 4);
    } else if y > 9999 {
        push_char(out, '+');
        write_padded(out, y as u64, 4);
    } else {
        push_char(out, '-');
        let a: i64 = -(y as i64);
        write_padded(out, a as u64, 4);
    }
    assert(out@ =~= start + year_text(y as int));
}

/// Appends the fraction of a second as `NaiveTime` displays it.
fn write_fraction(out: &mut String, nano: u32)
    ensures
        final(out)@ == old(out)@ + fraction_text(nano as nat),
{
    let ghost start = out@;
    if nano == 0 {
    } else if nano % 1_000_000 == 0 {
        push_char(out, '.');
        write_padded(out, (nano / 1_000_000) as u64, 3);
    } else if nano % 1_000 == 0 {
        push_char(out, '.');
        write_padded(out, (nano / 1_000) as u64, 6);
    } else {
        push_char(out, '.');
        write_padded(out, nano as u64, 9);
    }
    assert(out@ =~= start + fraction_text(nano as nat));
}

/// Appends a separator and a two-digit field.
fn write_field(out: &mut String, sep: char, n: u64)
    ensures
        final(out)@ == old(out)@ + seq![sep] + padded_digits(n as nat, 2),
{
    let ghost start = out@;
    push_char(out, sep);
    write_padded(out, n, 2);
    assert(out@ =~= start + seq![sep] + padded_digits(n as nat, 2));
}

impl Timestamp {
    /// Writes the timestamp as `NaiveDateTime`'s `Display` does.
    pub fn text(&self) -> (r: String)
        ensures
            r@ == timestamp_text(*self),
    {
        let mut out = String::new();
        write_year(&mut out, self.year);
        write_field(&mut out, '-', self.month as u64);
        write_field(&mut out, '-', self.day as u64);
        write_field(&mut out, ' ', self.hour as u64);
        write_field(&mut out, ':', self.minute as u64);
        let leap = self.nanosecond >= 1_000_000_000;
        let second: u64 = if leap { self.second as u64 + 1 } else { self.second as u64 };
        let nano: u32 = if leap { self.nanosecond - 1_000_000_000 } else { self.nanosecond };
        write_field(&mut out, ':', second);
        write_fraction(&mut out, nano);
        assert(out@ =~= timestamp_text(*self));
        out
    }
}

/// The value of the digits of `s` from position `a` up to, not including, `b`.
pub open spec fn field_value(s: Seq<char>, a: int, b: int) -> nat {
    digits_value(0, s.subrange(a, b))
}

/// The date and time that a text of the form `YYYY-MM-DD hh:mm:ss` writes,
/// read field by field.
pub open spec fn plain_datetime_of(s: Seq<char>) -> Timestamp {
    Timestamp {
        year: field_value(s, 0, 4) as i32,
        month: field_value(s, 5, 7) as u32,
        day: field_value(s, 8, 10) as u32,
        hour: field_value(s, 11, 13) as u32,
        minute: field_value(s, 14, 16) as u32,
        second: field_value(s, 17, 19) as u32,
        nanosecond: 0,
    }
}

/// A text of the form `YYYY-MM-DD hh:mm:ss`, four digits for the year and two
/// for each other field, that names a date that exists and a time of day.
pub open spec fn is_plain_datetime_text(s: Seq<char>) -> bool {
    &&& s.len() == 19
    &&& s[4] == '-' && s[7] == '-' && s[10] == ' ' && s[13] == ':' && s[16] == ':'
    &&& all_digits(s.subrange(0, 4))
    &&& all_digits(s.subrange(5, 7))
    &&& all_digits(s.subrange(8, 10))
    &&& all_digits(s.subrange(11, 13))
    &&& all_digits(s.subrange(14, 16))
    &&& all_digits(s.subrange(17, 19))
    &&& plain_datetime_of(s).valid()
}

/// The time format `%Y-%m-%d %H:%M:%S`.
pub open spec fn plain_datetime_format() -> Seq<char> {
    "%Y-%m-%d %H:%M:%S"@
}

/// A whole-second date and time of the years 0 to 9999 is written as
/// `YYYY-MM-DD hh:mm:ss`, and reading each field of that text back gives the
/// year, month, day, hour, minute and second it was written from.
pub proof fn lemma_timestamp_text_reads_back(t: Timestamp)
    requires
        t.valid(),
        0 <= t.year <= 9999,
        t.nanosecond == 0,
    ensures
        is_plain_datetime_text(timestamp_text(t)),
        plain_datetime_of(timestamp_text(t)) == t,
        count_of(timestamp_text(t).subrange(0, 4)) == Ok::<usize, ParseCountError>(
            t.year as usize,
        ),
        count_of(timestamp_text(t).subrange(5, 7)) == Ok::<usize, ParseCountError>(
            t.month as usize,
        ),
        count_of(timestamp_text(t).subrange(8, 10)) == Ok::<usize, ParseCountError>(
            t.day as usize,
        ),
        count_of(timestamp_text(t).subrange(11, 13)) == Ok::<usize, ParseCountError>(
            t.hour as usize,
        ),
        count_of(timestamp_text(t).subrange(14, 16)) == Ok::<usize, ParseCountError>(
            t.minute as usize,
        ),
        count_of(timestamp_text(t).subrange(17, 19)) == Ok::<usize, ParseCountError>(
            t.second as usize,
        ),
{
    reveal_with_fuel(pow10, 5);
    assert(pow10(2) == 100);
    assert(pow10(4) == 10000);
    lemma_decimal_len(t.year as nat, 4);
    lemma_decimal_len(t.month as nat, 2);
    lemma_decimal_len(t.day as nat, 2);
    lemma_decimal_len(t.hour as nat, 2);
    lemma_decimal_len(t.minute as nat, 2);
    lemma_decimal_len(t.second as nat, 2);
    lemma_padded_reads_back(t.year as usize, 4);
    lemma_padded_reads_back(t.month as usize, 2);
    lemma_padded_reads_back(t.day as usize, 2);
    lemma_padded_reads_back(t.hour as usize, 2);
    lemma_padded_reads_back(t.minute as usize, 2);
    lemma_padded_reads_back(t.second as usize, 2);
    let a = padded_digits(t.year as nat, 4);
    let b = padded_digits(t.month as nat, 2);
    let c = padded_digits(t.day as nat, 2);
    let d = padded_digits(t.hour as nat, 2);
    let e = padded_digits(t.minute as nat, 2);
    let f = padded_digits(t.second as nat, 2);
    let s = timestamp_text(t);
    assert(year_text(t.year as int) == a);
    assert(fraction_text(0) =~= Seq::<char>::empty());
    let built = a + seq!['-'] + b + seq!['-'] + c + seq![' '] + d + seq![':'] + e + seq![':'] + f;
    assert(s =~= built);
    assert(s.len() == 19);
    assert(s.subrange(0, 4) =~= a);
    assert(s.subrange(5, 7) =~= b);
    assert(s.subrange(8, 10) =~= c);
    assert(s.subrange(11, 13) =~= d);
    assert(s.subrange(14, 16) =~= e);
    assert(s.subrange(17, 19) =~= f);
    assert(s[4] == '-' && s[7] == '-' && s[10] == ' ' && s[13] == ':' && s[16] == ':');
    assert(plain_datetime_of(s) == t);
}

#[verifier::external_type_specification]
#[verifier::external_body]
pub struct ExParseError(chrono::ParseError);

/// What `chrono::NaiveDateTime::parse_from_str(text, format)` gives, field by
/// field, or `None` where it fails. The rules of `chrono`'s format language are
/// not spelled out here.
pub uninterp spec fn chrono_parsed(text: Seq<char>, format: Seq<char>) -> Option<Timestamp>;

/// `chrono::NaiveDateTime::parse_from_str`. It succeeds exactly where
/// `chrono_parsed` is `Some`, and then gives that timestamp; every
/// `NaiveDateTime` holds a date that exists, a year within chrono's range and a
/// time of day, which `Timestamp::valid` states. Which error it gives is not
/// stated. A text `YYYY-MM-DD hh:mm:ss` that names a date that exists and a
/// time of day is read, under the format `%Y-%m-%d %H:%M:%S`, as exactly that
/// date and time: chrono reads `%Y` as up to four digits and `%m`, `%d`, `%H`,
/// `%M`, `%S` as up to two, and matches `-`, ` ` and `:` as written.
#[verifier::external_body]
pub(crate) fn parse_with_format(text: &str, format: &str) -> (r: Result<
    Timestamp,
    chrono::ParseError,
>)
    ensures
        r is Ok <==> chrono_parsed(text@, format@) is Some,
        r matches Ok(t) ==> chrono_parsed(text@, format@) == Some(t) && t.valid(),
        r is Err ==> !(format@ == plain_datetime_format() && is_plain_datetime_text(text@)),
        r matches Ok(t) ==> (format@ == plain_datetime_format() && is_plain_datetime_text(text@)
            ==> t == plain_datetime_of(text@)),
{
    match chrono::NaiveDateTime::parse_from_str(text, format) {
        Ok(dt) => Ok(
            Timestamp {
                year: dt.year(),
                month: dt.month(),
                day: dt.day(),
                hour: dt.hour(),
                minute: dt.minute(),
                second: dt.second(),
                nanosecond: dt.nanosecond(),
            },
        ),
        Err(e) => Err(e),
    }
}

} // verus!
