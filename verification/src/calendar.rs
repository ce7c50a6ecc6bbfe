//! Calendar dates and instants as plain values, and the date parsing that
//! broker exports and typed-in expiries need.
//!
//! Text is read with `chrono`; the library keeps the result as a year, month
//! and day. Holding periods are whole-day differences of the proleptic
//! Gregorian day count.

use vstd::prelude::*;
use chrono::Datelike;
use crate::money::{all_digits, digits_val, is_digit, lemma_padded_digits, padded_digits, pow10};
use crate::text::{chars_of, string_of, trim, trim_bounds, is_ws, is_whitespace};

verus! {

/// A date of the proleptic Gregorian calendar.
#[derive(Debug, Clone, Copy, PartialEq, Eq, Structural)]
pub struct Date {
    pub year: i32,
    pub month: u32,
    pub day: u32,
}

/// An instant in UTC: seconds since 1970-01-01T00:00:00Z and the nanoseconds
/// past that second.
#[derive(Debug, Clone, Copy, PartialEq, Eq, Structural)]
pub struct Timestamp {
    pub secs: i64,
    pub nanos: u32,
}

pub open spec fn is_leap(y: int) -> bool {
    (y % 4 == 0 && y % 100 != 0) || y % 400 == 0
}

pub open spec fn days_in_month(y: int, m: int) -> int {
    if m == 2 {
        if is_leap(y) { 29 } else { 28 }
    } else if m == 4 || m == 6 || m == 9 || m == 11 {
        30
    } else {
        31
    }
}

/// A date that exists, within the years `chrono::NaiveDate` represents.
pub open spec fn valid_date(d: Date) -> bool {
    &&& -262_143 <= d.year <= 262_142
    &&& 1 <= d.month <= 12
    &&& 1 <= d.day <= days_in_month(d.year as int, d.month as int)
}

/// Whether `d` is a real date in chrono's years (see [`valid_date`]).
pub fn valid_date_exec(d: Date) -> (r: bool)
    ensures
        r == valid_date(d),
{
    if d.year < -262_143 || d.year > 262_142 || d.month < 1 || d.month > 12 || d.day < 1 {
        return false;
    }
    // Shifted by whole 400-year cycles, so that `%` sees a non-negative year.
    let y: i64 = d.year as i64 + 400_000;
    assert(y % 4 == 0 <==> d.year % 4 == 0) by (nonlinear_arith)
        requires y == d.year + 400_000;
    assert(y % 100 == 0 <==> d.year % 100 == 0) by (nonlinear_arith)
        requires y == d.year + 400_000;
    assert(y % 400 == 0 <==> d.year % 400 == 0) by (nonlinear_arith)
        requires y == d.year + 400_000;
    let leap = (y % 4 == 0 && y % 100 != 0) || y % 400 == 0;
    let dim: u32 = if d.month == 2 {
        if leap { 29 } else { 28 }
    } else if d.month == 4 || d.month == 6 || d.month == 9 || d.month == 11 {
        30
    } else {
        31
    };
    d.day <= dim
}

/// Days from 1970-01-01 to `d` in the proleptic Gregorian calendar.
pub open spec fn day_number(d: Date) -> int {
    let y = if d.month <= 2 { d.year - 1 } else { d.year as int };
    let era = y / 400;
    let yoe = y - era * 400;
    let mp = if d.month > 2 { d.month - 3 } else { d.month + 9 };
    let doy = (153 * mp + 2) / 5 + d.day - 1;
    let doe = yoe * 365 + yoe / 4 - yoe / 100 + doy;
    era * 146_097 + doe - 719_468
}

/// Whole days from `a` to `b`, what `(b - a).num_days()` gives.
pub open spec fn days_between(a: Date, b: Date) -> int {
    day_number(b) - day_number(a)
}

/// Calendar order.
pub open spec fn date_le(a: Date, b: Date) -> bool {
    a.year < b.year || (a.year == b.year && (a.month < b.month || (a.month == b.month && a.day <= b.day)))
}

pub fn date_le_exec(a: Date, b: Date) -> (r: bool)
    ensures
        r == date_le(a, b),
{
    a.year < b.year || (a.year == b.year && (a.month < b.month || (a.month == b.month && a.day <= b.day)))
}

/// The day count of [`day_number`], for dates in `chrono`'s range.
pub fn day_number_exec(d: Date) -> (r: i64)
    requires
        valid_date(d),
    ensures
        r == day_number(d),
        -100_000_000 <= r <= 100_000_000,
{
    let y: i64 = if d.month <= 2 { d.year as i64 - 1 } else { d.year as i64 };
    // Shift into non-negative territory so `/` floors.
    let shifted: i64 = y + 400 * 1000;
    assert(0 <= shifted <= 800_000);
    let era: i64 = shifted / 400 - 1000;
    assert(era == y / 400);
    assert(-700 <= era <= 700);
    let yoe: i64 = y - era * 400;
    assert(0 <= yoe < 400);
    let mp: i64 = if d.month > 2 { d.month as i64 - 3 } else { d.month as i64 + 9 };
    let doy: i64 = (153 * mp + 2) / 5 + d.day as i64 - 1;
    assert(0 <= doy <= 400);
    let doe: i64 = yoe * 365 + yoe / 4 - yoe / 100 + doy;
    assert(0 <= doe <= 146_500);
    era * 146_097 + doe - 719_468
}

/// Midnight UTC at the start of `d`.
pub open spec fn midnight(d: Date) -> Timestamp {
    Timestamp { secs: (day_number(d) * 86_400) as i64, nanos: 0 }
}

pub fn midnight_exec(d: Date) -> (r: Timestamp)
    requires
        valid_date(d),
    ensures
        r == midnight(d),
{
    let n = day_number_exec(d);
    Timestamp { secs: n * 86_400, nanos: 0 }
}

/// The UTC day an instant falls on, counted like [`day_number`].
pub open spec fn utc_day(t: Timestamp) -> int {
    t.secs / 86_400
}

pub fn utc_day_exec(t: Timestamp) -> (r: i64)
    ensures
        r == utc_day(t),
{
    if t.secs >= 0 {
        t.secs / 86_400
    } else {
        let back: i64 = -(t.secs + 1);
        -(back / 86_400) - 1
    }
}

/// The day count of chrono's first date, 1 January -262143.
pub open spec fn chrono_first_day() -> int {
    day_number(Date { year: -262_143i32, month: 1u32, day: 1u32 })
}

/// The day count of chrono's last date, 31 December 262142.
pub open spec fn chrono_last_day() -> int {
    day_number(Date { year: 262_142i32, month: 12u32, day: 31u32 })
}

/// What `chrono::DateTime::<Utc>::from_timestamp(secs, nanos)` yields, as
/// its UTC date.
pub uninterp spec fn chrono_utc_date(secs: i64, nanos: u32) -> Option<Date>;

/// Calls `chrono::DateTime::<Utc>::from_timestamp` and takes the date
/// (`date_naive`). Claimed: the result is a function of the seconds and
/// nanoseconds, and any date it yields is a real date whose day count is the
/// seconds divided by 86 400, rounded down (chrono's source takes
/// `secs.div_euclid(86_400)` days from the epoch); and it yields a date
/// whenever the nanoseconds are under a second and that day lies within
/// chrono's years, -262143 to 262142 (`from_num_days_from_ce_opt` fails only
/// outside them, `from_num_seconds_from_midnight_opt` only for a nanosecond
/// count of a second or more off a leap second). What it yields for a leap
/// second's nanoseconds is left unsaid.
#[verifier::external_body]
pub(crate) fn utc_date(t: Timestamp) -> (r: Option<Date>)
    ensures
        r == chrono_utc_date(t.secs, t.nanos),
        r matches Some(d) ==> valid_date(d) && day_number(d) == utc_day(t),
        t.nanos < 1_000_000_000 && chrono_first_day() <= utc_day(t) <= chrono_last_day() ==> r is Some,
{
    match chrono::DateTime::<chrono::Utc>::from_timestamp(t.secs, t.nanos) {
        Some(dt) => {
            let d = dt.date_naive();
            Some(Date { year: d.year(), month: d.month(), day: d.day() })
        },
        None => None,
    }
}

/// What `chrono::NaiveDate::parse_from_str(s, fmt)` yields, as a date.
pub uninterp spec fn chrono_parse(s: Seq<char>, fmt: Seq<char>) -> Option<Date>;

/// The date that `YYYY-MM-DD` text spells digit by digit: four year digits,
/// two month digits and two day digits joined by `-`; nothing for any other
/// shape.
pub open spec fn iso_date_in(s: Seq<char>) -> Option<Date> {
    if s.len() == 10 && s[4] == '-' && s[7] == '-' && all_digits(s.subrange(0, 4)) && all_digits(s.subrange(5, 7))
        && all_digits(s.subrange(8, 10)) {
        Some(Date {
            year: digits_val(s.subrange(0, 4)) as i32,
            month: digits_val(s.subrange(5, 7)) as u32,
            day: digits_val(s.subrange(8, 10)) as u32,
        })
    } else {
        None
    }
}

/// What `chrono::NaiveDate::format(fmt)` prints for `d`.
pub uninterp spec fn chrono_format(d: Date, fmt: Seq<char>) -> Seq<char>;

/// Calls `chrono::NaiveDate::parse_from_str`, which reads `s` under the
/// strftime-style pattern `fmt`. Claimed: the result is a function of the two
/// texts, and any date it yields is a real date in `chrono`'s year range
/// (`NaiveDate` cannot hold any other); and under `%Y-%m-%d`, text made of
/// four, two and two digits joined by `-` that spells a real date reads as
/// that date (chrono's parser takes up to four digits for an unsigned `%Y`
/// and two for `%m` and `%d`, then checks the date exists).
#[verifier::external_body]
pub(crate) fn parse_date_with(s: &str, fmt: &str) -> (r: Option<Date>)
    ensures
        r == chrono_parse(s@, fmt@),
        r matches Some(d) ==> valid_date(d),
        fmt@ == "%Y-%m-%d"@ && iso_date_in(s@) is Some && valid_date(iso_date_in(s@)->Some_0) ==> r == iso_date_in(s@),
{
    match chrono::NaiveDate::parse_from_str(s, fmt) {
        Ok(d) => Some(Date { year: d.year(), month: d.month(), day: d.day() }),
        Err(_) => None,
    }
}

/// The two patterns this library prints dates with.
pub open spec fn printable_format(fmt: Seq<char>) -> bool {
    fmt == "%Y-%m-%d"@ || fmt == "%d-%b-%y"@
}

/// Calls `chrono::NaiveDate::format(fmt)` and renders it. Claimed: the text is
/// a function of the date and the pattern, and for `%Y-%m-%d` and a year in
/// `0..=9999` it is the year in four digits, the month and the day in two,
/// joined by `-` (the zero-padded `%Y`, `%m`, `%d` of chrono's documentation);
/// for `%d-%b-%y` it is the two-digit day, the English month abbreviation and
/// the year modulo 100 in two digits (chrono's `write_two` of
/// `year().rem_euclid(100)`; `%b` takes no locale).
#[verifier::external_body]
pub(crate) fn format_date(d: Date, fmt: &str) -> (r: String)
    requires
        valid_date(d),
        printable_format(fmt@),
    ensures
        r@ == chrono_format(d, fmt@),
        fmt@ == "%Y-%m-%d"@ && 0 <= d.year <= 9999 ==> r@ == iso_text(d),
        fmt@ == "%d-%b-%y"@ ==> r@ == day_month_year_text(d),
{
    chrono::NaiveDate::from_ymd_opt(d.year, d.month, d.day).unwrap().format(fmt).to_string()
}

/// English month abbreviations, as chrono's `%b` prints them.
pub open spec fn short_month(m: int) -> Seq<char> {
    if m == 1 { "Jan"@ } else if m == 2 { "Feb"@ } else if m == 3 { "Mar"@ } else if m == 4 { "Apr"@ }
    else if m == 5 { "May"@ } else if m == 6 { "Jun"@ } else if m == 7 { "Jul"@ } else if m == 8 { "Aug"@ }
    else if m == 9 { "Sep"@ } else if m == 10 { "Oct"@ } else if m == 11 { "Nov"@ } else { "Dec"@ }
}

/// `DD-Mon-YY`: the day in two digits, the month's abbreviation, and the
/// year's last two digits (the year taken modulo 100, so never negative).
pub open spec fn day_month_year_text(d: Date) -> Seq<char> {
    padded_digits(d.day as nat, 2) + seq!['-'] + short_month(d.month as int) + seq!['-']
        + padded_digits((d.year as int % 100) as nat, 2)
}

/// `YYYY-MM-DD` for a year in `0..=9999`.
pub open spec fn iso_text(d: Date) -> Seq<char> {
    padded_digits(d.year as nat, 4) + seq!['-'] + padded_digits(d.month as nat, 2) + seq!['-']
        + padded_digits(d.day as nat, 2)
}

/// Date orderings seen in broker exports, most specific first. Day-first
/// `d/m/Y` is absent on purpose: it cannot be told from `m/d/Y` for the first
/// twelve days of a month, and a silent guess would put lots on the wrong side
/// of the one-year line.
pub open spec fn import_formats() -> Seq<Seq<char>> {
    seq![
        "%Y-%m-%d"@, "%Y/%m/%d"@, "%m/%d/%Y"@, "%m-%d-%Y"@, "%m/%d/%y"@, "%m-%d-%y"@,
        "%d-%b-%Y"@, "%d-%b-%y"@, "%d %b %Y"@, "%b %d, %Y"@, "%b %d %Y"@, "%B %d, %Y"@,
    ]
}

fn import_format(i: usize) -> (r: &'static str)
    requires
        i < 12,
    ensures
        r@ == import_formats()[i as int],
{
    if i == 0 { "%Y-%m-%d" } else if i == 1 { "%Y/%m/%d" } else if i == 2 { "%m/%d/%Y" }
    else if i == 3 { "%m-%d-%Y" } else if i == 4 { "%m/%d/%y" } else if i == 5 { "%m-%d-%y" }
    else if i == 6 { "%d-%b-%Y" } else if i == 7 { "%d-%b-%y" } else if i == 8 { "%d %b %Y" }
    else if i == 9 { "%b %d, %Y" } else if i == 10 { "%b %d %Y" } else { "%B %d, %Y" }
}

/// A year a broker lot can plausibly have been bought in.
pub open spec fn plausible_year(d: Date) -> bool {
    1900 <= d.year <= 2100
}

/// Index of the first whitespace character of `t`, or its length.
pub open spec fn first_ws(t: Seq<char>) -> int
    decreases t.len(),
{
    if t.len() == 0 {
        0
    } else if is_ws(t[0]) {
        0
    } else {
        1 + first_ws(t.drop_first())
    }
}

/// First plausible reading of `t` (whole text, then its first word) under the
/// import formats from index `i` on.
pub open spec fn import_date_from(t: Seq<char>, head: Seq<char>, i: int) -> Option<Date>
    decreases 12 - i,
{
    if i < 0 || i >= 12 {
        None
    } else {
        let f = import_formats()[i];
        let a = chrono_parse(t, f);
        let b = chrono_parse(head, f);
        if a is Some && plausible_year(a->0) {
            a
        } else if b is Some && plausible_year(b->0) {
            b
        } else {
            import_date_from(t, head, i + 1)
        }
    }
}

/// What [`parse_date`] returns: the trimmed text, or failing that its first
/// word (exports sometimes carry a time of day), read under each import
/// format in turn; only a year in 1900..=2100 is accepted.
pub open spec fn import_date(s: Seq<char>) -> Option<Date> {
    let t = trim(s);
    if t.len() == 0 {
        None
    } else {
        import_date_from(t, t.take(first_ws(t)), 0)
    }
}

proof fn lemma_first_ws_at(t: Seq<char>, i: int)
    requires
        0 <= i <= t.len(),
        forall|j: int| 0 <= j < i ==> !is_ws(t[j]),
        i == t.len() || is_ws(t[i]),
    ensures
        first_ws(t) == i,
    decreases i,
{
    if i > 0 {
        assert forall|j: int| 0 <= j < i - 1 implies !is_ws(t.drop_first()[j]) by {
            assert(t.drop_first()[j] == t[j + 1]);
        }
        if i < t.len() {
            assert(t.drop_first()[i - 1] == t[i]);
        }
        lemma_first_ws_at(t.drop_first(), i - 1);
    }
}

/// Reads a date cell from a broker export (see [`import_date`]).
pub fn parse_date(s: &str) -> (r: Option<Date>)
    ensures
        r == import_date(s@),
        r matches Some(d) ==> valid_date(d) && plausible_year(d),
{
    let cs = chars_of(s);
    let (lo, hi) = trim_bounds(&cs);
    if lo == hi {
        return None;
    }
    let t = string_of(&cs, lo, hi);
    let mut k = lo;
    while k < hi && !is_whitespace(cs[k])
        invariant
            lo <= k <= hi <= cs.len(),
            forall|j: int| lo <= j < k ==> !is_ws(cs@[j]),
        decreases hi - k,
    {
        k += 1;
    }
    let head = string_of(&cs, lo, k);
    proof {
        let tt = cs@.subrange(lo as int, hi as int);
        lemma_first_ws_at(tt, (k - lo) as int);
        assert(tt.take((k - lo) as int) == head@);
    }
    let mut i: usize = 0;
    while i < 12
        invariant
            i <= 12,
            import_date(s@) == import_date_from(t@, head@, i as int),
        decreases 12 - i,
    {
        let f = import_format(i);
        let a = parse_date_with(t.as_str(), f);
        if let Some(d) = a {
            if 1900 <= d.year && d.year <= 2100 {
                return a;
            }
        }
        let b = parse_date_with(head.as_str(), f);
        if let Some(d) = b {
            if 1900 <= d.year && d.year <= 2100 {
                return b;
            }
        }
        i += 1;
    }
    None
}

/// The spellings a typed-in expiry may take, two-digit years first: `%Y`
/// would read "28" as the year 28, while `%y` refuses a four-digit year.
pub open spec fn typed_formats() -> Seq<Seq<char>> {
    seq!["%Y-%m-%d"@, "%m/%d/%y"@, "%m/%d/%Y"@, "%d-%b-%y"@, "%d-%b-%Y"@, "%d %b %Y"@, "%b %d %Y"@, "%Y%m%d"@]
}

fn typed_format(i: usize) -> (r: &'static str)
    requires
        i < 8,
    ensures
        r@ == typed_formats()[i as int],
{
    if i == 0 { "%Y-%m-%d" } else if i == 1 { "%m/%d/%y" } else if i == 2 { "%m/%d/%Y" }
    else if i == 3 { "%d-%b-%y" } else if i == 4 { "%d-%b-%Y" } else if i == 5 { "%d %b %Y" }
    else if i == 6 { "%b %d %Y" } else { "%Y%m%d" }
}

/// The first reading of `t` under the typed formats from index `i` on.
pub open spec fn typed_date_from(t: Seq<char>, i: int) -> Option<Date>
    decreases 8 - i,
{
    if i < 0 || i >= 8 {
        None
    } else if chrono_parse(t, typed_formats()[i]) is Some {
        chrono_parse(t, typed_formats()[i])
    } else {
        typed_date_from(t, i + 1)
    }
}

/// What [`canonical_date`] returns: the `YYYY-MM-DD` form of the first
/// reading of the trimmed text, or the trimmed text itself when no format
/// reads it.
pub open spec fn canonical_date_text(s: Seq<char>) -> Seq<char> {
    match typed_date_from(trim(s), 0) {
        Some(d) => chrono_format(d, "%Y-%m-%d"@),
        None => trim(s),
    }
}

/// Accepts the date spellings people type and returns the canonical
/// `YYYY-MM-DD`; anything unrecognised comes back trimmed but otherwise as
/// typed, so the field never fights the user mid-entry.
pub fn canonical_date(s: &str) -> (r: String)
    ensures
        r@ == canonical_date_text(s@),
        typed_date_from(trim(s@), 0) matches Some(d) ==> valid_date(d) && (0 <= d.year <= 9999 ==> r@ == iso_text(d)),
        (typed_date_from(trim(s@), 0) matches Some(d) ==> 0 <= d.year <= 9999) ==> canonical_date_text(r@) == r@,
{
    let t = crate::text::trimmed(s);
    let mut i: usize = 0;
    while i < 8
        invariant
            i <= 8,
            t@ == trim(s@),
            typed_date_from(t@, 0) == typed_date_from(t@, i as int),
        decreases 8 - i,
    {
        if let Some(d) = parse_date_with(t.as_str(), typed_format(i)) {
            assert(typed_date_from(t@, i as int) == Some(d));
            let out = format_date(d, "%Y-%m-%d");
            if 0 <= d.year && d.year <= 9999 {
                // Read back, the printed date names the same day, so it is
                // already canonical.
                let again = parse_date_with(out.as_str(), "%Y-%m-%d");
                proof {
                    lemma_iso_reads_back(d);
                    assert(again == Some(d));
                    lemma_iso_text_trimmed(d);
                    assert(typed_formats()[0] == "%Y-%m-%d"@);
                    assert(typed_date_from(out@, 0) == Some(d));
                }
            }
            return out;
        }
        i += 1;
    }
    proof {
        crate::text::lemma_trim_idempotent(s@);
    }
    t
}

proof fn lemma_iso_reads_back(d: Date)
    requires
        valid_date(d),
        0 <= d.year <= 9999,
    ensures
        iso_date_in(iso_text(d)) == Some(d),
{
    let y = padded_digits(d.year as nat, 4);
    let m = padded_digits(d.month as nat, 2);
    let dd = padded_digits(d.day as nat, 2);
    lemma_padded_digits(d.year as nat, 4);
    lemma_padded_digits(d.month as nat, 2);
    lemma_padded_digits(d.day as nat, 2);
    reveal_with_fuel(pow10, 5);
    let t = iso_text(d);
    assert(t.subrange(0, 4) == y);
    assert(t.subrange(5, 7) == m);
    assert(t.subrange(8, 10) == dd);
    assert(t[4] == '-' && t[7] == '-');
    assert(pow10(4) == 10000 && pow10(2) == 100);
    assert(digits_val(y) == d.year);
    assert(d.month <= 12);
    assert(days_in_month(d.year as int, d.month as int) <= 31);
    assert(d.day <= 31);
    assert((d.month as nat) as int % 100 == d.month);
    assert((d.day as nat) as int % 100 == d.day);
    assert(digits_val(m) == d.month);
    assert(digits_val(dd) == d.day);
    assert(all_digits(t.subrange(0, 4)) && all_digits(t.subrange(5, 7)) && all_digits(t.subrange(8, 10)));
    assert(t.len() == 10);
}

proof fn lemma_iso_text_trimmed(d: Date)
    requires
        valid_date(d),
        0 <= d.year <= 9999,
    ensures
        trim(iso_text(d)) == iso_text(d),
{
    lemma_padded_digits(d.year as nat, 4);
    lemma_padded_digits(d.day as nat, 2);
    let t = iso_text(d);
    assert(t[0] == padded_digits(d.year as nat, 4)[0]);
    assert(t.last() == padded_digits(d.day as nat, 2)[1]);
    assert(is_digit(t[0]) && is_digit(t.last()));
    crate::money::lemma_trim_noop(t);
}

} // verus!
