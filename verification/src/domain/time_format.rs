use vstd::prelude::*;

use crate::clock::{instant, spec_rfc3339_millis, EARLIEST_RFC3339_MILLIS, LATEST_RFC3339_MILLIS};
use chrono::Datelike;

use crate::domain::season_calendar::{
    day_number, local_date_of, near_day, valid_date, weekday_from_monday, CalendarDate,
};
use crate::text::{nat_digits, push_char, push_padded, zero_pad};

verus! {

/// English abbreviation of a month, as chrono writes `%b`.
pub open spec fn month_abbrev(m: int) -> Seq<char> {
    if m == 1 {
        seq!['J', 'a', 'n']
    } else if m == 2 {
        seq!['F', 'e', 'b']
    } else if m == 3 {
        seq!['M', 'a', 'r']
    } else if m == 4 {
        seq!['A', 'p', 'r']
    } else if m == 5 {
        seq!['M', 'a', 'y']
    } else if m == 6 {
        seq!['J', 'u', 'n']
    } else if m == 7 {
        seq!['J', 'u', 'l']
    } else if m == 8 {
        seq!['A', 'u', 'g']
    } else if m == 9 {
        seq!['S', 'e', 'p']
    } else if m == 10 {
        seq!['O', 'c', 't']
    } else if m == 11 {
        seq!['N', 'o', 'v']
    } else {
        seq!['D', 'e', 'c']
    }
}

/// The month names chrono writes for `%b`, January to December.
pub open spec fn english_month_names() -> Seq<Seq<char>> {
    seq![
        seq!['J', 'a', 'n'],
        seq!['F', 'e', 'b'],
        seq!['M', 'a', 'r'],
        seq!['A', 'p', 'r'],
        seq!['M', 'a', 'y'],
        seq!['J', 'u', 'n'],
        seq!['J', 'u', 'l'],
        seq!['A', 'u', 'g'],
        seq!['S', 'e', 'p'],
        seq!['O', 'c', 't'],
        seq!['N', 'o', 'v'],
        seq!['D', 'e', 'c'],
    ]
}

/// Each month is written with its own English abbreviation: month `m` as the `m`-th of
/// January to December, so no two months share a name.
pub proof fn law_month_abbrev_names()
    ensures
        forall|m: int| 1 <= m <= 12 ==> #[trigger] month_abbrev(m) == english_month_names()[m - 1],
        forall|m: int, n: int|
            1 <= m <= 12 && 1 <= n <= 12 && m != n ==> #[trigger] month_abbrev(m) != #[trigger] month_abbrev(n),
{
    let names = english_month_names();
    assert forall|m: int| 1 <= m <= 12 implies #[trigger] month_abbrev(m) == names[m - 1] by {
        assert(month_abbrev(m) =~= names[m - 1]);
    }
    assert forall|m: int, n: int|
        1 <= m <= 12 && 1 <= n <= 12 && m != n implies #[trigger] month_abbrev(m) != #[trigger] month_abbrev(n) by {
        assert(month_abbrev(m) =~= names[m - 1]);
        assert(month_abbrev(n) =~= names[n - 1]);
        if month_abbrev(m) == month_abbrev(n) {
            assert(names[m - 1][0] == names[n - 1][0]);
            assert(names[m - 1][1] == names[n - 1][1]);
            assert(names[m - 1][2] == names[n - 1][2]);
        }
    }
}

/// A day of the month written with two digits.
proof fn lemma_two_digit_day(day: u32)
    requires
        1 <= day <= 31,
    ensures
        zero_pad(nat_digits(day as nat), 2).len() == 2,
{
    reveal_with_fuel(nat_digits, 3);
    if day >= 10 {
        assert(nat_digits(day as nat) == nat_digits((day / 10) as nat).push(
            crate::text::digit_char((day % 10) as int),
        ));
        assert(nat_digits((day / 10) as nat).len() == 1);
    }
}

/// A meeting's date range writes the first day's month and the last day's month by their
/// English abbreviations, at the places `%d %b – %d %b` puts them.
pub proof fn law_date_range_months(start: CalendarDate, end: CalendarDate)
    requires
        valid_date(start),
        valid_date(end),
    ensures
        date_range_spec(start, end).subrange(3, 6) == english_month_names()[start.month - 1],
        date_range_spec(start, end).subrange(12, 15) == english_month_names()[end.month - 1],
{
    law_month_abbrev_names();
    lemma_two_digit_day(start.day);
    lemma_two_digit_day(end.day);
    let t = date_range_spec(start, end);
    let a = zero_pad(nat_digits(start.day as nat), 2);
    let b = zero_pad(nat_digits(end.day as nat), 2);
    assert(month_abbrev(start.month as int) == english_month_names()[start.month - 1]);
    assert(month_abbrev(end.month as int) == english_month_names()[end.month - 1]);
    assert(t.subrange(3, 6) =~= month_abbrev(start.month as int));
    assert(t.subrange(12, 15) =~= month_abbrev(end.month as int));
}

/// `%d %b`: the day zero-padded to two digits, a space and the month's abbreviation.
pub open spec fn day_month_text(d: CalendarDate) -> Seq<char> {
    zero_pad(nat_digits(d.day as nat), 2) + seq![' '] + month_abbrev(d.month as int)
}

/// `%Y`: the year zero-padded to four digits, with a sign before years outside 0 to 9999.
pub open spec fn year_text(y: int) -> Seq<char> {
    if 0 <= y <= 9999 {
        zero_pad(nat_digits(y as nat), 4)
    } else if y < 0 {
        seq!['-'] + zero_pad(nat_digits((-y) as nat), 4)
    } else {
        seq!['+'] + zero_pad(nat_digits(y as nat), 4)
    }
}

/// `"%d %b – %d %b %Y"` of a meeting's first and last local day.
pub open spec fn date_range_spec(start: CalendarDate, end: CalendarDate) -> Seq<char> {
    day_month_text(start) + seq![' ', '\u{2013}', ' '] + day_month_text(end) + seq![' '] + year_text(
        end.year as int,
    )
}

/// The instant a date text stands for, with `now` in place of a text that does not parse.
pub open spec fn instant_or(text: Seq<char>, now: i64) -> i64 {
    match spec_rfc3339_millis(text) {
        Some(t) => t,
        None => now,
    }
}

fn month_abbrev_chars(m: u32) -> (r: (char, char, char))
    requires
        1 <= m <= 12,
    ensures
        seq![r.0, r.1, r.2] == month_abbrev(m as int),
{
    if m == 1 {
        ('J', 'a', 'n')
    } else if m == 2 {
        ('F', 'e', 'b')
    } else if m == 3 {
        ('M', 'a', 'r')
    } else if m == 4 {
        ('A', 'p', 'r')
    } else if m == 5 {
        ('M', 'a', 'y')
    } else if m == 6 {
        ('J', 'u', 'n')
    } else if m == 7 {
        ('J', 'u', 'l')
    } else if m == 8 {
        ('A', 'u', 'g')
    } else if m == 9 {
        ('S', 'e', 'p')
    } else if m == 10 {
        ('O', 'c', 't')
    } else if m == 11 {
        ('N', 'o', 'v')
    } else {
        ('D', 'e', 'c')
    }
}

fn push_day_month(s: &mut String, d: CalendarDate)
    requires
        valid_date(d),
    ensures
        final(s)@ == old(s)@ + day_month_text(d),
{
    let ghost before = s@;
    push_padded(s, d.day as u64, 2);
    push_char(s, ' ');
    let (a, b, c) = month_abbrev_chars(d.month);
    push_char(s, a);
    push_char(s, b);
    push_char(s, c);
    assert(s@ =~= before + day_month_text(d));
}

fn push_year(s: &mut String, y: i32)
    ensures
        final(s)@ == old(s)@ + year_text(y as int),
{
    let ghost before = s@;
    if 0 <= y && y <= 9999 {
        push_padded(s, y as u64, 4);
    } else if y < 0 {
        push_char(s, '-');
        let magnitude: u64 = (-(y as i64)) as u64;
        push_padded(s, magnitude, 4);
    } else {
        push_char(s, '+');
        push_padded(s, y as u64, 4);
    }
    assert(s@ =~= before + year_text(y as int));
}

/// The text of a meeting's date range from its first and last local day: `"%d %b – %d %b %Y"`,
/// such as `"07 Mar – 09 Mar 2025"`.
pub fn date_range_text(start: CalendarDate, end: CalendarDate) -> (r: String)
    requires
        valid_date(start),
        valid_date(end),
    ensures
        r@ == date_range_spec(start, end),
{
    let mut s = String::new();
    push_day_month(&mut s, start);
    push_char(&mut s, ' ');
    push_char(&mut s, '\u{2013}');
    push_char(&mut s, ' ');
    push_day_month(&mut s, end);
    push_char(&mut s, ' ');
    push_year(&mut s, end.year);
    assert(s@ =~= date_range_spec(start, end));
    s
}

/// The date range of a meeting from its RFC 3339 start and end texts, in the machine's time
/// zone; `now` (the current instant) stands in for a text that does not parse. Which local day
/// an instant falls on depends on the time zone: the days used are within a day of the UTC
/// days of the instants.
pub fn format_meeting_date_range(start: &str, end: &str, now: i64) -> (r: String)
    requires
        EARLIEST_RFC3339_MILLIS <= now <= LATEST_RFC3339_MILLIS,
    ensures
        exists|ds: CalendarDate, de: CalendarDate|
            near_day(ds, instant_or(start@, now)) && near_day(de, instant_or(end@, now))
                && r@ == #[trigger] date_range_spec(ds, de),
{
    let s = match instant(start) {
        Some(t) => t,
        None => now,
    };
    let e = match instant(end) {
        Some(t) => t,
        None => now,
    };
    let ds = match local_date_of(s) {
        Some(d) => d,
        None => return String::new(),
    };
    let de = match local_date_of(e) {
        Some(d) => d,
        None => return String::new(),
    };
    let r = date_range_text(ds, de);
    assert(near_day(ds, instant_or(start@, now)) && near_day(de, instant_or(end@, now)));
    r
}

/// English abbreviation of a weekday counted from Monday, as chrono writes `%a`.
pub open spec fn weekday_abbrev(w: int) -> Seq<char> {
    if w == 0 {
        seq!['M', 'o', 'n']
    } else if w == 1 {
        seq!['T', 'u', 'e']
    } else if w == 2 {
        seq!['W', 'e', 'd']
    } else if w == 3 {
        seq!['T', 'h', 'u']
    } else if w == 4 {
        seq!['F', 'r', 'i']
    } else if w == 5 {
        seq!['S', 'a', 't']
    } else {
        seq!['S', 'u', 'n']
    }
}

/// `%Y-%m-%d` of a date.
pub open spec fn iso_date_spec(d: CalendarDate) -> Seq<char> {
    year_text(d.year as int) + seq!['-'] + zero_pad(nat_digits(d.month as nat), 2) + seq!['-'] + zero_pad(
        nat_digits(d.day as nat),
        2,
    )
}

/// `%a %d %b` of a date: weekday, day and month, such as `Sun 08 Mar`.
pub open spec fn day_label_spec(d: CalendarDate) -> Seq<char> {
    weekday_abbrev(weekday_from_monday(d)) + seq![' '] + day_month_text(d)
}

/// Days counted from the common era as chrono counts them (0001-01-01 is day 1), against days
/// counted from 1970-01-01.
pub const CE_DAY_OF_EPOCH: i64 = 719_163;

/// The first and last days, counted from the common era, of the dates chrono represents
/// (-262143-01-01 and 262142-12-31).
pub const FIRST_CE_DAY: i32 = -95_746_129;

pub const LAST_CE_DAY: i32 = 95_745_399;

/// `chrono::NaiveDate::from_num_days_from_ce_opt`: the date of a day counted from the common
/// era (0001-01-01 is day 1) in the proleptic Gregorian calendar, `None` outside the dates
/// chrono represents.
#[verifier::external_body]
fn date_of_ce_day(day: i32) -> (r: Option<CalendarDate>)
    ensures
        r is Some <==> FIRST_CE_DAY <= day <= LAST_CE_DAY,
        r matches Some(d) ==> valid_date(d) && day_number(d) == day - CE_DAY_OF_EPOCH,
{
    let date = chrono::NaiveDate::from_num_days_from_ce_opt(day)?;
    Some(CalendarDate { year: date.year(), month: date.month(), day: date.day() })
}

fn weekday_abbrev_chars(w: u32) -> (r: (char, char, char))
    requires
        w < 7,
    ensures
        seq![r.0, r.1, r.2] == weekday_abbrev(w as int),
{
    if w == 0 {
        ('M', 'o', 'n')
    } else if w == 1 {
        ('T', 'u', 'e')
    } else if w == 2 {
        ('W', 'e', 'd')
    } else if w == 3 {
        ('T', 'h', 'u')
    } else if w == 4 {
        ('F', 'r', 'i')
    } else if w == 5 {
        ('S', 'a', 't')
    } else {
        ('S', 'u', 'n')
    }
}

/// `%Y-%m-%d` of a date.
pub fn iso_date_text(d: CalendarDate) -> (r: String)
    requires
        valid_date(d),
    ensures
        r@ == iso_date_spec(d),
{
    let mut s = String::new();
    push_year(&mut s, d.year);
    push_char(&mut s, '-');
    push_padded(&mut s, d.month as u64, 2);
    push_char(&mut s, '-');
    push_padded(&mut s, d.day as u64, 2);
    assert(s@ =~= iso_date_spec(d));
    s
}

/// `%a %d %b` of a date, with its weekday given (counted from Monday).
pub fn day_label_text(d: CalendarDate, weekday: u32) -> (r: String)
    requires
        valid_date(d),
        weekday == weekday_from_monday(d),
    ensures
        r@ == day_label_spec(d),
{
    let mut s = String::new();
    let (a, b, c) = weekday_abbrev_chars(weekday);
    push_char(&mut s, a);
    push_char(&mut s, b);
    push_char(&mut s, c);
    push_char(&mut s, ' ');
    push_day_month(&mut s, d);
    assert(s@ =~= day_label_spec(d));
    s
}

/// The date of a day counted from the common era as `%Y-%m-%d` (the form the forecast service
/// takes); empty outside the dates chrono represents.
pub fn ce_day_text(day: i32) -> (r: String)
    ensures
        FIRST_CE_DAY <= day <= LAST_CE_DAY ==> exists|d: CalendarDate|
            valid_date(d) && day_number(d) == day - CE_DAY_OF_EPOCH && r@ == #[trigger] iso_date_spec(d),
        !(FIRST_CE_DAY <= day <= LAST_CE_DAY) ==> r@.len() == 0,
{
    match date_of_ce_day(day) {
        Some(d) => iso_date_text(d),
        None => String::new(),
    }
}

/// The label of a forecast day counted from the common era, `%a %d %b` (such as `Sun 08 Mar`);
/// empty outside the dates chrono represents.
pub fn ce_day_label(day: i32) -> (r: String)
    ensures
        FIRST_CE_DAY <= day <= LAST_CE_DAY ==> exists|d: CalendarDate|
            valid_date(d) && day_number(d) == day - CE_DAY_OF_EPOCH && r@ == #[trigger] day_label_spec(d),
        !(FIRST_CE_DAY <= day <= LAST_CE_DAY) ==> r@.len() == 0,
{
    match date_of_ce_day(day) {
        Some(d) => {
            let shifted: i64 = day as i64 - CE_DAY_OF_EPOCH + 3;
            let weekday: u32 = (((shifted % 7) + 7) % 7) as u32;
            assert(weekday == weekday_from_monday(d));
            day_label_text(d, weekday)
        },
        None => String::new(),
    }
}

} // verus!
