//! Calendar dates and timestamps as plain values.
//!
//! A `Date` is a proleptic Gregorian calendar date with a four-digit year; a
//! `Timestamp` is a date together with a UTC time of day at second
//! resolution. Both carry a well-formedness predicate that constructors
//! establish, and both order lexicographically by their fields.

use vstd::prelude::*;

verus! {

/// A calendar date: year 0..=9999, month 1..=12, day within the month.
#[derive(Clone, Copy, PartialEq, Eq, Structural, Debug)]
pub struct Date {
    pub year: u16,
    pub month: u8,
    pub day: u8,
}

/// A UTC instant at second resolution.
#[derive(Clone, Copy, PartialEq, Eq, Structural, Debug)]
pub struct Timestamp {
    pub date: Date,
    pub hour: u8,
    pub minute: u8,
    pub second: u8,
}

/// Leap years: divisible by 4, except centuries unless divisible by 400.
pub open spec fn spec_is_leap_year(year: int) -> bool {
    (year % 4 == 0 && year % 100 != 0) || year % 400 == 0
}

/// Number of days of the given month in the given year.
pub open spec fn spec_days_in_month(year: int, month: int) -> int {
    if month == 2 {
        if spec_is_leap_year(year) {
            29
        } else {
            28
        }
    } else if month == 4 || month == 6 || month == 9 || month == 11 {
        30
    } else {
        31
    }
}

impl Date {
    /// A date is well formed when its month exists and its day lies within
    /// that month; the year is capped at four digits so that every well
    /// formed date has a fixed-width rendering.
    pub open spec fn valid(self) -> bool {
        &&& self.year <= 9999
        &&& 1 <= self.month <= 12
        &&& 1 <= self.day <= spec_days_in_month(self.year as int, self.month as int)
    }

    /// Chronological order, as lexicographic order on (year, month, day).
    pub open spec fn spec_le(self, other: Date) -> bool {
        if self.year != other.year {
            self.year < other.year
        } else if self.month != other.month {
            self.month < other.month
        } else {
            self.day <= other.day
        }
    }

    /// `self` is on or before `other`.
    pub fn le(&self, other: &Date) -> (r: bool)
        ensures
            r == self.spec_le(*other),
    {
        if self.year != other.year {
            self.year < other.year
        } else if self.month != other.month {
            self.month < other.month
        } else {
            self.day <= other.day
        }
    }
}

/// The order on dates is total: of any two dates, one is on or before the
/// other, and two dates each on or before the other are equal.
pub proof fn lemma_date_order_total(a: Date, b: Date)
    ensures
        a.spec_le(b) || b.spec_le(a),
        a.spec_le(b) && b.spec_le(a) ==> a == b,
{
}

pub fn is_leap_year(year: u16) -> (r: bool)
    ensures
        r == spec_is_leap_year(year as int),
{
    (year % 4 == 0 && year % 100 != 0) || year % 400 == 0
}

pub fn days_in_month(year: u16, month: u8) -> (r: u8)
    ensures
        r as int == spec_days_in_month(year as int, month as int),
{
    if month == 2 {
        if is_leap_year(year) {
            29
        } else {
            28
        }
    } else if month == 4 || month == 6 || month == 9 || month == 11 {
        30
    } else {
        31
    }
}

impl Timestamp {
    /// Valid date, and a time of day within bounds.
    pub open spec fn valid(self) -> bool {
        &&& self.date.valid()
        &&& self.hour < 24
        &&& self.minute < 60
        &&& self.second < 60
    }

    /// Chronological order: by date, then by time of day.
    pub open spec fn spec_le(self, other: Timestamp) -> bool {
        if self.date != other.date {
            self.date.spec_le(other.date)
        } else if self.hour != other.hour {
            self.hour < other.hour
        } else if self.minute != other.minute {
            self.minute < other.minute
        } else {
            self.second <= other.second
        }
    }

    /// `self` is at or before `other`.
    pub fn le(&self, other: &Timestamp) -> (r: bool)
        ensures
            r == self.spec_le(*other),
    {
        if self.date.year != other.date.year || self.date.month != other.date.month
            || self.date.day != other.date.day {
            self.date.le(&other.date)
        } else if self.hour != other.hour {
            self.hour < other.hour
        } else if self.minute != other.minute {
            self.minute < other.minute
        } else {
            self.second <= other.second
        }
    }
}

} // verus!

use vstd::string::*;
use crate::num::{
    spec_padded, all_digits, digits_val, pow10, fmt_padded, parse_usize, lemma_padded,
    lemma_digits_val_bound, lemma_pow10_small,
};

verus! {

/// The fixed `YYYY-MM-DD` rendering of a date.
pub open spec fn spec_date_text(d: Date) -> Seq<char> {
    spec_padded(d.year as nat, 4) + seq!['-'] + spec_padded(d.month as nat, 2) + seq!['-']
        + spec_padded(d.day as nat, 2)
}

/// The fixed ISO-style `YYYY-MM-DDTHH:MM:SSZ` rendering of a UTC instant.
pub open spec fn spec_timestamp_text(t: Timestamp) -> Seq<char> {
    spec_date_text(t.date) + seq!['T'] + spec_padded(t.hour as nat, 2) + seq![':'] + spec_padded(
        t.minute as nat,
        2,
    ) + seq![':'] + spec_padded(t.second as nat, 2) + seq!['Z']
}

/// The `HH:MM` rendering of a timestamp's time of day.
pub open spec fn spec_time_hm_text(t: Timestamp) -> Seq<char> {
    spec_padded(t.hour as nat, 2) + seq![':'] + spec_padded(t.minute as nat, 2)
}

/// What parsing a `YYYY-MM-DD` string gives: the date, when the shape is
/// exact and the calendar date exists; nothing otherwise.
pub open spec fn spec_parse_date(s: Seq<char>) -> Option<Date> {
    if s.len() == 10 && all_digits(s.subrange(0, 4)) && s[4] == '-' && all_digits(
        s.subrange(5, 7),
    ) && s[7] == '-' && all_digits(s.subrange(8, 10)) {
        let y = digits_val(s.subrange(0, 4));
        let mo = digits_val(s.subrange(5, 7));
        let da = digits_val(s.subrange(8, 10));
        if 1 <= mo <= 12 && 1 <= da <= spec_days_in_month(y as int, mo as int) {
            Some(Date { year: y as u16, month: mo as u8, day: da as u8 })
        } else {
            None
        }
    } else {
        None
    }
}

/// What parsing a `YYYY-MM-DDTHH:MM:SSZ` string gives.
pub open spec fn spec_parse_timestamp(s: Seq<char>) -> Option<Timestamp> {
    if s.len() == 20 && s[10] == 'T' && s[13] == ':' && s[16] == ':' && s[19] == 'Z' && all_digits(
        s.subrange(11, 13),
    ) && all_digits(s.subrange(14, 16)) && all_digits(s.subrange(17, 19)) {
        match spec_parse_date(s.subrange(0, 10)) {
            Some(d) => {
                let h = digits_val(s.subrange(11, 13));
                let mi = digits_val(s.subrange(14, 16));
                let se = digits_val(s.subrange(17, 19));
                if h < 24 && mi < 60 && se < 60 {
                    Some(Timestamp { date: d, hour: h as u8, minute: mi as u8, second: se as u8 })
                } else {
                    None
                }
            },
            None => None,
        }
    } else {
        None
    }
}

/// Renders `d` as `YYYY-MM-DD`.
pub fn date_to_text(d: &Date) -> (r: String)
    ensures
        r@ == spec_date_text(*d),
{
    let mut r = fmt_padded(d.year as usize, 4);
    r.append("-");
    let mo = fmt_padded(d.month as usize, 2);
    r.append(mo.as_str());
    r.append("-");
    let da = fmt_padded(d.day as usize, 2);
    r.append(da.as_str());
    proof {
        reveal_strlit("-");
        assert(r@ =~= spec_date_text(*d));
    }
    r
}

/// Renders `t` as `YYYY-MM-DDTHH:MM:SSZ`.
pub fn timestamp_to_text(t: &Timestamp) -> (r: String)
    ensures
        r@ == spec_timestamp_text(*t),
{
    let mut r = date_to_text(&t.date);
    r.append("T");
    let h = fmt_padded(t.hour as usize, 2);
    r.append(h.as_str());
    r.append(":");
    let mi = fmt_padded(t.minute as usize, 2);
    r.append(mi.as_str());
    r.append(":");
    let se = fmt_padded(t.second as usize, 2);
    r.append(se.as_str());
    r.append("Z");
    proof {
        reveal_strlit("T");
        reveal_strlit(":");
        reveal_strlit("Z");
        assert(r@ =~= spec_timestamp_text(*t));
    }
    r
}

/// Renders the time of day of `t` as `HH:MM`.
pub fn time_hm_text(t: &Timestamp) -> (r: String)
    ensures
        r@ == spec_time_hm_text(*t),
{
    let mut r = fmt_padded(t.hour as usize, 2);
    r.append(":");
    let mi = fmt_padded(t.minute as usize, 2);
    r.append(mi.as_str());
    proof {
        reveal_strlit(":");
        assert(r@ =~= spec_time_hm_text(*t));
    }
    r
}

/// Parses a `YYYY-MM-DD` string; `Some` exactly on well-shaped strings
/// naming an existing calendar date.
pub fn parse_date(s: &str) -> (r: Option<Date>)
    ensures
        r == spec_parse_date(s@),
{
    let n = s.unicode_len();
    if n != 10 {
        return None;
    }
    if s.get_char(4) != '-' || s.get_char(7) != '-' {
        return None;
    }
    let ys = s.substring_char(0, 4);
    let ms = s.substring_char(5, 7);
    let ds = s.substring_char(8, 10);
    proof {
        if all_digits(ys@) {
            lemma_digits_val_bound(ys@);
            lemma_pow10_small();
        }
        if all_digits(ms@) {
            lemma_digits_val_bound(ms@);
            lemma_pow10_small();
        }
        if all_digits(ds@) {
            lemma_digits_val_bound(ds@);
        }
    }
    let y = match parse_usize(ys) {
        Some(v) => v,
        None => {
            return None;
        },
    };
    let mo = match parse_usize(ms) {
        Some(v) => v,
        None => {
            return None;
        },
    };
    let da = match parse_usize(ds) {
        Some(v) => v,
        None => {
            return None;
        },
    };
    if mo < 1 || mo > 12 {
        return None;
    }
    if da < 1 {
        return None;
    }
    let dim = days_in_month(y as u16, mo as u8);
    if da > dim as usize {
        return None;
    }
    Some(Date { year: y as u16, month: mo as u8, day: da as u8 })
}

/// Parses a `YYYY-MM-DDTHH:MM:SSZ` string.
pub fn parse_timestamp(s: &str) -> (r: Option<Timestamp>)
    ensures
        r == spec_parse_timestamp(s@),
{
    let n = s.unicode_len();
    if n != 20 {
        return None;
    }
    if s.get_char(10) != 'T' || s.get_char(13) != ':' || s.get_char(16) != ':' || s.get_char(19)
        != 'Z' {
        return None;
    }
    let date_part = s.substring_char(0, 10);
    let hs = s.substring_char(11, 13);
    let mis = s.substring_char(14, 16);
    let ses = s.substring_char(17, 19);
    proof {
        if all_digits(hs@) {
            lemma_digits_val_bound(hs@);
            lemma_pow10_small();
        }
        if all_digits(mis@) {
            lemma_digits_val_bound(mis@);
        }
        if all_digits(ses@) {
            lemma_digits_val_bound(ses@);
        }
    }
    let h = match parse_usize(hs) {
        Some(v) => v,
        None => {
            return None;
        },
    };
    let mi = match parse_usize(mis) {
        Some(v) => v,
        None => {
            return None;
        },
    };
    let se = match parse_usize(ses) {
        Some(v) => v,
        None => {
            return None;
        },
    };
    let d = match parse_date(date_part) {
        Some(d) => d,
        None => {
            return None;
        },
    };
    if h >= 24 || mi >= 60 || se >= 60 {
        return None;
    }
    Some(Timestamp { date: d, hour: h as u8, minute: mi as u8, second: se as u8 })
}

/// Rendering a well-formed date and parsing it back returns the date.
pub proof fn lemma_date_text_parse(d: Date)
    requires
        d.valid(),
    ensures
        spec_parse_date(spec_date_text(d)) == Some(d),
        spec_date_text(d).len() == 10,
{
    let t = spec_date_text(d);
    lemma_pow10_small();
    lemma_padded(d.year as nat, 4);
    lemma_padded(d.month as nat, 2);
    lemma_padded(d.day as nat, 2);
    assert(t.subrange(0, 4) =~= spec_padded(d.year as nat, 4));
    assert(t.subrange(5, 7) =~= spec_padded(d.month as nat, 2));
    assert(t.subrange(8, 10) =~= spec_padded(d.day as nat, 2));
    assert(t[4] == '-');
    assert(t[7] == '-');
}

/// Rendering a well-formed timestamp and parsing it back returns the
/// timestamp.
pub proof fn lemma_timestamp_text_parse(ts: Timestamp)
    requires
        ts.valid(),
    ensures
        spec_parse_timestamp(spec_timestamp_text(ts)) == Some(ts),
        spec_timestamp_text(ts).len() == 20,
{
    let t = spec_timestamp_text(ts);
    lemma_date_text_parse(ts.date);
    lemma_pow10_small();
    lemma_padded(ts.hour as nat, 2);
    lemma_padded(ts.minute as nat, 2);
    lemma_padded(ts.second as nat, 2);
    assert(t.subrange(0, 10) =~= spec_date_text(ts.date));
    assert(t.subrange(11, 13) =~= spec_padded(ts.hour as nat, 2));
    assert(t.subrange(14, 16) =~= spec_padded(ts.minute as nat, 2));
    assert(t.subrange(17, 19) =~= spec_padded(ts.second as nat, 2));
    assert(t[10] == 'T');
    assert(t[13] == ':');
    assert(t[16] == ':');
    assert(t[19] == 'Z');
}

} // verus!
