use vstd::prelude::*;

use chrono::{Datelike, Offset};

use crate::clock::{
    instant_or_now, meeting_ends, meeting_ends_resolve, meeting_starts, meeting_starts_resolve, resolves,
    spec_rfc3339_millis, EARLIEST_RFC3339_MILLIS, LATEST_RFC3339_MILLIS,
};
use crate::domain::calendar::{not_cancelled, uncancelled_meetings, RaceTriplet};
use crate::domain::countdown::{arrange, single_key_vec, single_keys};
use crate::order::{keys_view, stable_order, stable_sort_indices};
use crate::records::{pick_meetings, Meeting, Session};

verus! {

/// Where a race weekend stands: over, in focus, or still to come.
#[derive(Debug, Clone, Copy, PartialEq, Eq, Structural)]
pub enum RacePhase {
    Past,
    Current,
    Future,
}

/// A day of the (proleptic Gregorian) calendar.
#[derive(Debug, Clone, Copy, PartialEq, Eq, Structural)]
pub struct CalendarDate {
    pub year: i32,
    pub month: u32,
    pub day: u32,
}

/// A session on a calendar day; `starts_at` is in milliseconds since the epoch.
#[derive(Debug, Clone, PartialEq, Eq)]
pub struct DaySession {
    pub session_name: String,
    pub starts_at: i64,
}

/// One cell of the season calendar.
#[derive(Debug, Clone, PartialEq, Eq)]
pub struct SeasonCalendarDay {
    pub date: CalendarDate,
    pub phase: Option<RacePhase>,
    pub meeting_name: Option<String>,
    pub round: Option<u32>,
    pub sessions: Vec<DaySession>,
}

/// A month of the season calendar; `leading_blanks` is the weekday of its first day, counted
/// from Monday.
#[derive(Debug, Clone)]
pub struct SeasonCalendarMonth {
    pub year: i32,
    pub month: u32,
    pub leading_blanks: usize,
    pub days: Vec<SeasonCalendarDay>,
}

/// The months from the first race weekend to the last one.
#[derive(Debug, Clone)]
pub struct SeasonCalendar {
    pub months: Vec<SeasonCalendarMonth>,
}

/// A session placed on the calendar: its local date, and the round, phase and name of its
/// meeting.
#[derive(Debug, Clone, PartialEq, Eq)]
pub struct SessionMark {
    pub date: CalendarDate,
    pub round: u32,
    pub phase: RacePhase,
    pub meeting_name: String,
    pub session: DaySession,
}

impl DaySession {
    pub fn duplicate(&self) -> (r: Self)
        ensures
            r == *self,
    {
        DaySession { session_name: self.session_name.clone(), starts_at: self.starts_at }
    }
}

impl SessionMark {
    pub fn duplicate(&self) -> (r: Self)
        ensures
            r == *self,
    {
        SessionMark {
            date: self.date,
            round: self.round,
            phase: self.phase,
            meeting_name: self.meeting_name.clone(),
            session: self.session.duplicate(),
        }
    }
}

// ---------------------------------------------------------------------------------------------
// Gregorian calendar

/// The first and last years of the dates that chrono represents.
pub const MIN_CALENDAR_YEAR: i32 = -262_143;

pub const MAX_CALENDAR_YEAR: i32 = 262_142;

pub open spec fn is_leap_year(y: int) -> bool {
    (y % 4 == 0 && y % 100 != 0) || y % 400 == 0
}

pub open spec fn month_length(y: int, m: int) -> int {
    if m == 2 {
        if is_leap_year(y) {
            29
        } else {
            28
        }
    } else if m == 4 || m == 6 || m == 9 || m == 11 {
        30
    } else {
        31
    }
}

pub open spec fn valid_date(d: CalendarDate) -> bool {
    &&& MIN_CALENDAR_YEAR <= d.year <= MAX_CALENDAR_YEAR
    &&& 1 <= d.month <= 12
    &&& 1 <= d.day <= month_length(d.year as int, d.month as int)
}

/// Days from 1970-01-01 to the date in the proleptic Gregorian calendar (negative before it):
/// whole 400-year eras of 146097 days, then the days of the era counted from 1 March, so that
/// the leap day comes last.
pub open spec fn day_number(d: CalendarDate) -> int {
    let y: int = if d.month <= 2 {
        d.year - 1
    } else {
        d.year as int
    };
    let era = y / 400;
    let year_of_era = y - era * 400;
    let month_from_march = (d.month + 9) % 12;
    let day_of_year = (153 * month_from_march + 2) / 5 + d.day - 1;
    let day_of_era = year_of_era * 365 + year_of_era / 4 - year_of_era / 100 + day_of_year;
    era * 146097 + day_of_era - 719468
}

/// The weekday of a date counted from Monday (1970-01-01 was a Thursday).
pub open spec fn weekday_from_monday(d: CalendarDate) -> int {
    (day_number(d) + 3) % 7
}

/// `d` is a valid date within a day of the UTC date of `instant` (milliseconds since the epoch):
/// what the local date of that instant can be under an offset of less than a day.
pub open spec fn near_day(d: CalendarDate, instant: i64) -> bool {
    &&& valid_date(d)
    &&& -1 <= day_number(d) - (instant as int) / 86_400_000 <= 1
}

/// Days in a month: the day before the first of the next month. The next month of December
/// of the last year chrono represents does not exist, and then the month counts 28 days.
pub open spec fn days_in_month_of(y: int, m: int) -> int {
    if m == 12 && y == MAX_CALENDAR_YEAR {
        28
    } else {
        month_length(y, m)
    }
}

fn divisible(year: i32, by: i64) -> (r: bool)
    requires
        MIN_CALENDAR_YEAR <= year <= MAX_CALENDAR_YEAR,
        by == 4 || by == 100 || by == 400,
    ensures
        r == (year as int % by as int == 0),
{
    let shifted: i64 = year as i64 + 400_000;
    assert((shifted as int) % (by as int) == (year as int) % (by as int)) by (nonlinear_arith)
        requires
            shifted == year + 400_000,
            by == 4 || by == 100 || by == 400,
    {
        assert(400_000int == (by as int) * (400_000int / (by as int)));
    }
    shifted % by == 0
}

fn days_in_month(year: i32, month: u32) -> (r: u32)
    requires
        MIN_CALENDAR_YEAR <= year <= MAX_CALENDAR_YEAR,
        1 <= month <= 12,
    ensures
        r == days_in_month_of(year as int, month as int),
{
    if month == 12 && year == MAX_CALENDAR_YEAR {
        28
    } else if month == 2 {
        let leap = (divisible(year, 4) && !divisible(year, 100)) || divisible(year, 400);
        if leap {
            29
        } else {
            28
        }
    } else if month == 4 || month == 6 || month == 9 || month == 11 {
        30
    } else {
        31
    }
}

/// `chrono::NaiveDate::from_ymd_opt(year, month, 1)`, then `weekday().num_days_from_monday()`:
/// the weekday of the first of the month in the proleptic Gregorian calendar, counted from
/// Monday.
#[verifier::external_body]
fn first_weekday(year: i32, month: u32) -> (r: u32)
    requires
        MIN_CALENDAR_YEAR <= year <= MAX_CALENDAR_YEAR,
        1 <= month <= 12,
    ensures
        r == weekday_from_monday(CalendarDate { year, month, day: 1 }),
{
    chrono::NaiveDate::from_ymd_opt(year, month, 1).expect("valid month").weekday().num_days_from_monday()
}

/// chrono: the date, in the machine's time zone, of the instant (milliseconds since the epoch):
/// `DateTime::from_timestamp_millis`, the offset of `Local` at that instant, and the date of
/// the shifted time. It depends on the time zone setting, so which date comes back is not
/// claimed, only that it is a date chrono represents; `None` when the instant or its local
/// time is outside that range. chrono's offsets are less than a day, so the local date is the
/// UTC date of the instant or the day before or after it; for an instant an RFC 3339 text can
/// name (UTC year -2 to 10003) a date always comes back, and its year is at most 10005.
#[verifier::external_body]
pub(crate) fn local_date_of(instant: i64) -> (r: Option<CalendarDate>)
    ensures
        r matches Some(d) ==> near_day(d, instant),
        r is None ==> !(EARLIEST_RFC3339_MILLIS <= instant <= LATEST_RFC3339_MILLIS),
        r matches Some(d) ==> (EARLIEST_RFC3339_MILLIS <= instant <= LATEST_RFC3339_MILLIS ==> d.year <= 10_005),
{
    let utc = chrono::DateTime::from_timestamp_millis(instant)?;
    let offset = utc.with_timezone(&chrono::Local).offset().fix();
    let date = utc.naive_utc().checked_add_offset(offset)?.date();
    Some(CalendarDate { year: date.year(), month: date.month(), day: date.day() })
}

// ---------------------------------------------------------------------------------------------
// Days and months

pub open spec fn on_date(date: CalendarDate) -> spec_fn(SessionMark) -> bool {
    |k: SessionMark| k.date == date
}

pub open spec fn mark_starts(marks: Seq<SessionMark>) -> Seq<i64> {
    marks.map_values(|k: SessionMark| k.session.starts_at)
}

pub open spec fn mark_sessions(marks: Seq<SessionMark>) -> Seq<DaySession> {
    marks.map_values(|k: SessionMark| k.session)
}

/// The cell of `date`: the sessions placed on it, sorted by start (stable), and the round,
/// phase and name of the meeting of the last of them as listed.
pub open spec fn day_matches(day: SeasonCalendarDay, marks: Seq<SessionMark>, date: CalendarDate) -> bool {
    let on = marks.filter(on_date(date));
    let order = stable_order(single_keys(mark_starts(on)), false, on.len());
    &&& day.date == date
    &&& if on.len() == 0 {
        day.phase is None && day.meeting_name is None && day.round is None
    } else {
        &&& day.phase == Some(on.last().phase)
        &&& day.meeting_name == Some(on.last().meeting_name)
        &&& day.round == Some(on.last().round)
    }
    &&& day.sessions@ == mark_sessions(arrange(on, order))
}

pub open spec fn month_matches(month: SeasonCalendarMonth, marks: Seq<SessionMark>, y: int, m: int) -> bool {
    &&& month.year == y
    &&& month.month == m
    &&& month.leading_blanks == weekday_from_monday(CalendarDate { year: y as i32, month: m as u32, day: 1 })
    &&& month.days@.len() == days_in_month_of(y, m)
    &&& forall|d: int|
        0 <= d < month.days@.len() ==> day_matches(
            #[trigger] month.days@[d],
            marks,
            CalendarDate { year: y as i32, month: m as u32, day: (d + 1) as u32 },
        )
}

/// Months counted from year 0: January of year `y` is `12 * y`.
pub open spec fn month_number(y: int, m: int) -> int {
    y * 12 + m - 1
}

/// The months from that of `first` to that of `last`, each with its cells.
pub open spec fn months_match(
    months: Seq<SeasonCalendarMonth>,
    marks: Seq<SessionMark>,
    first: CalendarDate,
    last: CalendarDate,
) -> bool {
    let a = month_number(first.year as int, first.month as int);
    let b = month_number(last.year as int, last.month as int);
    &&& months.len() == (if b >= a {
        b - a + 1
    } else {
        0
    })
    &&& forall|k: int|
        0 <= k < months.len() ==> month_matches(#[trigger] months[k], marks, (a + k) / 12, (a + k) % 12 + 1)
}

fn marks_on_date(marks: &Vec<SessionMark>, date: CalendarDate) -> (r: Vec<SessionMark>)
    ensures
        r@ == marks@.filter(on_date(date)),
{
    let mut r: Vec<SessionMark> = Vec::new();
    let mut i: usize = 0;
    while i < marks.len()
        invariant
            i <= marks@.len(),
            r@ == marks@.subrange(0, i as int).filter(on_date(date)),
        decreases marks.len() - i,
    {
        proof {
            reveal(Seq::filter);
            assert(marks@.subrange(0, (i + 1) as int).drop_last() =~= marks@.subrange(0, i as int));
        }
        if marks[i].date == date {
            r.push(marks[i].duplicate());
        }
        i = i + 1;
    }
    assert(marks@.subrange(0, marks@.len() as int) =~= marks@);
    r
}

fn day_cell(marks: &Vec<SessionMark>, date: CalendarDate) -> (r: SeasonCalendarDay)
    ensures
        day_matches(r, marks@, date),
{
    let on = marks_on_date(marks, date);
    let mut starts: Vec<i64> = Vec::new();
    let mut i: usize = 0;
    while i < on.len()
        invariant
            i <= on@.len(),
            starts@ == mark_starts(on@).subrange(0, i as int),
        decreases on.len() - i,
    {
        starts.push(on[i].session.starts_at);
        i = i + 1;
    }
    assert(starts@ =~= mark_starts(on@));
    let keys = single_key_vec(&starts);
    let order = stable_sort_indices(&keys, false);
    assert(keys_view(keys@).len() == keys@.len());
    let ghost sorted = arrange(on@, order@);
    let mut sessions: Vec<DaySession> = Vec::new();
    let mut j: usize = 0;
    while j < order.len()
        invariant
            j <= order@.len(),
            order@.len() == on@.len(),
            forall|m: int| 0 <= m < order@.len() ==> (order@[m] as int) < on@.len(),
            sorted == arrange(on@, order@),
            sessions@ == mark_sessions(sorted).subrange(0, j as int),
        decreases order.len() - j,
    {
        sessions.push(on[order[j]].session.duplicate());
        j = j + 1;
    }
    assert(sessions@ =~= mark_sessions(sorted));
    if on.len() == 0 {
        SeasonCalendarDay { date, phase: None, meeting_name: None, round: None, sessions }
    } else {
        let last = &on[on.len() - 1];
        SeasonCalendarDay {
            date,
            phase: Some(last.phase),
            meeting_name: Some(last.meeting_name.clone()),
            round: Some(last.round),
            sessions,
        }
    }
}

fn build_month(year: i32, month: u32, marks: &Vec<SessionMark>) -> (r: SeasonCalendarMonth)
    requires
        MIN_CALENDAR_YEAR <= year <= MAX_CALENDAR_YEAR,
        1 <= month <= 12,
    ensures
        month_matches(r, marks@, year as int, month as int),
{
    let leading_blanks = first_weekday(year, month) as usize;
    let count = days_in_month(year, month);
    let mut days: Vec<SeasonCalendarDay> = Vec::new();
    let mut d: u32 = 1;
    while d <= count
        invariant
            1 <= d <= count + 1,
            count <= 31,
            days@.len() == d - 1,
            forall|k: int|
                0 <= k < days@.len() ==> day_matches(
                    #[trigger] days@[k],
                    marks@,
                    CalendarDate { year, month, day: (k + 1) as u32 },
                ),
        decreases count + 1 - d,
    {
        days.push(day_cell(marks, CalendarDate { year, month, day: d }));
        d = d + 1;
    }
    SeasonCalendarMonth { year, month, leading_blanks, days }
}

/// The months from that of `first` to that of `last` (none when `last` is in an earlier
/// month), each with its cells. `None` when the month after `last` cannot be represented,
/// which is how far the months are walked.
pub fn calendar_months(marks: &Vec<SessionMark>, first: CalendarDate, last: CalendarDate) -> (r: Option<
    Vec<SeasonCalendarMonth>,
>)
    requires
        valid_date(first),
        valid_date(last),
    ensures
        r is None <==> (month_number(first.year as int, first.month as int) <= month_number(
            last.year as int,
            last.month as int,
        ) && last.year == MAX_CALENDAR_YEAR && last.month == 12),
        r matches Some(months) ==> months_match(months@, marks@, first, last),
{
    let ghost a = month_number(first.year as int, first.month as int);
    let ghost b = month_number(last.year as int, last.month as int);
    let mut months: Vec<SeasonCalendarMonth> = Vec::new();
    let mut y: i32 = first.year;
    let mut m: u32 = first.month;
    while y < last.year || (y == last.year && m <= last.month)
        invariant
            MIN_CALENDAR_YEAR <= y <= MAX_CALENDAR_YEAR,
            1 <= m <= 12,
            valid_date(last),
            a == month_number(first.year as int, first.month as int),
            b == month_number(last.year as int, last.month as int),
            month_number(y as int, m as int) == a + months@.len(),
            months@.len() > 0 ==> a + months@.len() <= b + 1,
            forall|k: int|
                0 <= k < months@.len() ==> month_matches(
                    #[trigger] months@[k],
                    marks@,
                    (a + k) / 12,
                    (a + k) % 12 + 1,
                ),
        decreases b + 1 - month_number(y as int, m as int),
    {
        let month = build_month(y, m, marks);
        proof {
            let k = months@.len() as int;
            assert((a + k) / 12 == y && (a + k) % 12 + 1 == m) by (nonlinear_arith)
                requires
                    a + k == y * 12 + m - 1,
                    1 <= m <= 12,
            {
            }
        }
        months.push(month);
        if m == 12 {
            if y == MAX_CALENDAR_YEAR {
                return None;
            }
            y = y + 1;
            m = 1;
        } else {
            m = m + 1;
        }
    }
    proof {
        if months@.len() > 0 {
            assert(a + months@.len() == b + 1);
        } else {
            assert(a > b);
        }
    }
    Some(months)
}

// ---------------------------------------------------------------------------------------------
// The season

pub open spec fn phase_of(end: i64, key: i64, current_key: i64, now: i64) -> RacePhase {
    if end < now {
        RacePhase::Past
    } else if key == current_key {
        RacePhase::Current
    } else {
        RacePhase::Future
    }
}

/// Where a meeting stands at `now`: past once it ended, current when it is the meeting in
/// focus, future otherwise.
fn meeting_phase(end: i64, key: i64, current_key: i64, now: i64) -> (r: RacePhase)
    ensures
        r == phase_of(end, key, current_key, now),
{
    if end < now {
        RacePhase::Past
    } else if key == current_key {
        RacePhase::Current
    } else {
        RacePhase::Future
    }
}

/// `i` is the last race meeting with the key.
pub open spec fn meta_index(race: Seq<Meeting>, key: i64, i: int) -> bool {
    0 <= i < race.len() && race[i].meeting_key == key && forall|j: int|
        i < j < race.len() ==> race[j].meeting_key != key
}

/// A session goes on the calendar when it is not cancelled and its meeting is a race meeting.
pub open spec fn counted(race: Seq<Meeting>, s: Session) -> bool {
    !s.is_cancelled && exists|i: int| meta_index(race, s.meeting_key, i)
}

pub open spec fn mark_of(
    race: Seq<Meeting>,
    phases: Seq<RacePhase>,
    s: Session,
    start: i64,
    date: CalendarDate,
) -> SessionMark {
    let i = choose|i: int| meta_index(race, s.meeting_key, i);
    SessionMark {
        date,
        round: (i + 1) as u32,
        phase: phases[i],
        meeting_name: race[i].meeting_name,
        session: DaySession { session_name: s.session_name, starts_at: start },
    }
}

/// The calendar marks of the sessions, in session order; `starts` and `dates` give, by session
/// index, the instant and local date of each counted session.
pub open spec fn marks_spec(
    race: Seq<Meeting>,
    phases: Seq<RacePhase>,
    sessions: Seq<Session>,
    starts: Seq<i64>,
    dates: Seq<CalendarDate>,
) -> Seq<SessionMark>
    decreases sessions.len(),
{
    if sessions.len() == 0 {
        seq![]
    } else {
        let n = sessions.len() - 1;
        let prev = marks_spec(race, phases, sessions.drop_last(), starts, dates);
        if counted(race, sessions[n]) {
            prev.push(mark_of(race, phases, sessions[n], starts[n], dates[n]))
        } else {
            prev
        }
    }
}

/// The season calendar made of `months`, for the instants the dates of the meetings and
/// sessions stand for (`starts`, `ends`, `session_starts`) and their local dates, each within a
/// day of the UTC date of its instant (`dates` of the
/// sessions; `first` of the first race start; `last` of the last race end).
pub open spec fn calendar_from(
    meetings: Seq<Meeting>,
    sessions: Seq<Session>,
    current_key: i64,
    now: i64,
    months: Seq<SeasonCalendarMonth>,
    starts: Seq<i64>,
    ends: Seq<i64>,
    session_starts: Seq<i64>,
    dates: Seq<CalendarDate>,
    first: CalendarDate,
    last: CalendarDate,
) -> bool {
    let cal = meetings.filter(not_cancelled());
    let order = stable_order(single_keys(starts), false, cal.len());
    let race = arrange(cal, order);
    let phases = Seq::new(race.len(), |i: int| phase_of(ends[i], race[i].meeting_key, current_key, now));
    &&& race.len() > 0
    &&& meeting_starts_resolve(cal, starts)
    &&& meeting_ends_resolve(race, ends)
    &&& session_starts.len() == sessions.len()
    &&& dates.len() == sessions.len()
    &&& forall|j: int|
        0 <= j < sessions.len() && counted(race, #[trigger] sessions[j]) ==> resolves(
            sessions[j].date_start@,
            session_starts[j],
        ) && near_day(dates[j], session_starts[j])
    &&& near_day(first, starts[order[0] as int])
    &&& near_day(last, ends[race.len() - 1])
    &&& months_match(months, marks_spec(race, phases, sessions, session_starts, dates), first, last)
}

/// Every date text the season calendar reads is RFC 3339 that chrono parses: the start and end of
/// each uncancelled meeting and the start of each uncancelled session. (Where one is not, the
/// current time stands in for it.)
pub open spec fn dates_parse(meetings: Seq<Meeting>, sessions: Seq<Session>) -> bool {
    &&& forall|i: int|
        0 <= i < meetings.len() && !(#[trigger] meetings[i]).is_cancelled ==> spec_rfc3339_millis(
            meetings[i].date_start@,
        ) is Some && spec_rfc3339_millis(meetings[i].date_end@) is Some
    &&& forall|j: int|
        0 <= j < sessions.len() && !(#[trigger] sessions[j]).is_cancelled ==> spec_rfc3339_millis(
            sessions[j].date_start@,
        ) is Some
}

/// The dates of each uncancelled meeting parse when all the calendar's date texts do.
proof fn lemma_uncancelled_dates_parse(meetings: Seq<Meeting>, sessions: Seq<Session>, k: int)
    requires
        dates_parse(meetings, sessions),
        0 <= k < meetings.filter(not_cancelled()).len(),
    ensures
        spec_rfc3339_millis(meetings.filter(not_cancelled())[k].date_start@) is Some,
        spec_rfc3339_millis(meetings.filter(not_cancelled())[k].date_end@) is Some,
{
    let m = meetings.filter(not_cancelled())[k];
    meetings.lemma_filter_pred(not_cancelled(), k);
    assert(meetings.filter(not_cancelled()).contains(m));
    meetings.lemma_filter_contains_rev(not_cancelled(), m);
    let i = choose|i: int| 0 <= i < meetings.len() && meetings[i] == m;
    assert(!meetings[i].is_cancelled);
}

pub open spec fn season_calendar_of(
    meetings: Seq<Meeting>,
    sessions: Seq<Session>,
    current_key: i64,
    now: i64,
    months: Seq<SeasonCalendarMonth>,
) -> bool {
    exists|
        starts: Seq<i64>,
        ends: Seq<i64>,
        session_starts: Seq<i64>,
        dates: Seq<CalendarDate>,
        first: CalendarDate,
        last: CalendarDate,
    |
        #[trigger] calendar_from(
            meetings,
            sessions,
            current_key,
            now,
            months,
            starts,
            ends,
            session_starts,
            dates,
            first,
            last,
        )
}

fn last_meeting_with_key(race: &Vec<Meeting>, key: i64) -> (r: Option<usize>)
    ensures
        match r {
            Some(i) => meta_index(race@, key, i as int),
            None => forall|i: int| 0 <= i < race@.len() ==> #[trigger] race@[i].meeting_key != key,
        },
{
    let mut i: usize = race.len();
    while i > 0
        invariant
            i <= race@.len(),
            forall|j: int| i <= j < race@.len() ==> #[trigger] race@[j].meeting_key != key,
        decreases i,
    {
        if race[i - 1].meeting_key == key {
            return Some(i - 1);
        }
        i = i - 1;
    }
    None
}

proof fn lemma_meta_index_unique(race: Seq<Meeting>, key: i64, i: int, k: int)
    requires
        meta_index(race, key, i),
        meta_index(race, key, k),
    ensures
        i == k,
{
    if i < k {
        assert(race[k].meeting_key != key);
    } else if k < i {
        assert(race[i].meeting_key != key);
    }
}

/// The season calendar: uncancelled meetings sorted by start (stable) are the rounds, in order;
/// each is past when it ended before `now`, current when it is the triplet's current meeting,
/// future otherwise. Every uncancelled session of a race meeting goes on its local date with
/// the round, phase and name of the last round of that meeting key; the months run from the
/// month of the first round's start to that of the last round's end. `None` without race
/// meetings, or when a date cannot be had in local time or past the last month; with race meetings
/// whose date texts all parse, a calendar always comes back.
pub fn build_season_calendar(
    meetings: &Vec<Meeting>,
    sessions: &Vec<Session>,
    triplet: &RaceTriplet,
    now: i64,
) -> (r: Option<SeasonCalendar>)
    ensures
        meetings@.filter(not_cancelled()).len() == 0 ==> r is None,
        meetings@.filter(not_cancelled()).len() > 0 && dates_parse(meetings@, sessions@) ==> r is Some,
        r matches Some(c) ==> season_calendar_of(
            meetings@,
            sessions@,
            triplet.current.meeting_key,
            now,
            c.months@,
        ),
{
    let current_meeting_key = triplet.current.meeting_key;
    let cal = uncancelled_meetings(meetings);
    if cal.len() == 0 {
        return None;
    }
    let starts = meeting_starts(&cal);
    let keys = single_key_vec(&starts);
    let order = stable_sort_indices(&keys, false);
    assert(keys_view(keys@).len() == keys@.len());
    assert(keys@.len() == cal@.len());
    let race = pick_meetings(&cal, &order);
    assert(race@ =~= arrange(cal@, order@));
    let ends = meeting_ends(&race);
    let ghost phases_s = Seq::new(
        race@.len(),
        |i: int| phase_of(ends@[i], race@[i].meeting_key, current_meeting_key, now),
    );
    let mut phases: Vec<RacePhase> = Vec::new();
    let mut i: usize = 0;
    while i < race.len()
        invariant
            i <= race@.len(),
            ends@.len() == race@.len(),
            phases_s == Seq::new(
                race@.len(),
                |i: int| phase_of(ends@[i], race@[i].meeting_key, current_meeting_key, now),
            ),
            phases@ == phases_s.subrange(0, i as int),
        decreases race.len() - i,
    {
        phases.push(meeting_phase(ends[i], race[i].meeting_key, current_meeting_key, now));
        i = i + 1;
    }
    assert(phases@ =~= phases_s);
    proof {
        if dates_parse(meetings@, sessions@) {
            let k = order@[0] as int;
            let z = order@[race@.len() - 1] as int;
            lemma_uncancelled_dates_parse(meetings@, sessions@, k);
            lemma_uncancelled_dates_parse(meetings@, sessions@, z);
            assert(resolves(cal@[k].date_start@, starts@[k]));
            assert(race@[race@.len() - 1] == cal@[z]);
            assert(resolves(race@[race@.len() - 1].date_end@, ends@[race@.len() - 1]));
        }
    }
    let first = match local_date_of(starts[order[0]]) {
        Some(d) => d,
        None => return None,
    };
    let last = match local_date_of(ends[race.len() - 1]) {
        Some(d) => d,
        None => return None,
    };
    let mut session_starts: Vec<i64> = Vec::new();
    let mut session_dates: Vec<CalendarDate> = Vec::new();
    let mut j: usize = 0;
    while j < sessions.len()
        invariant
            j <= sessions@.len(),
            session_starts@.len() == j,
            session_dates@.len() == j,
            forall|k: int|
                0 <= k < j && counted(race@, #[trigger] sessions@[k]) ==> resolves(
                    sessions@[k].date_start@,
                    session_starts@[k],
                ) && near_day(session_dates@[k], session_starts@[k]),
        decreases sessions.len() - j,
    {
        let s = &sessions[j];
        let mut found: Option<usize> = None;
        if !s.is_cancelled {
            found = last_meeting_with_key(&race, s.meeting_key);
        }
        match found {
            Some(_) => {
                let start = instant_or_now(s.date_start.as_str());
                assert(dates_parse(meetings@, sessions@) ==> spec_rfc3339_millis(
                    sessions@[j as int].date_start@,
                ) is Some);
                let date = match local_date_of(start) {
                    Some(d) => d,
                    None => return None,
                };
                session_starts.push(start);
                session_dates.push(date);
            },
            None => {
                proof {
                    if !s.is_cancelled {
                        assert(!exists|w: int| meta_index(race@, s.meeting_key, w));
                    }
                    assert(!counted(race@, *s));
                }
                session_starts.push(0);
                session_dates.push(first);
            },
        }
        j = j + 1;
    }
    let result = season_calendar_from_dates(
        &race,
        &phases,
        sessions,
        &session_starts,
        &session_dates,
        first,
        last,
    );
    proof {
        if result is Some {
            assert(calendar_from(
                meetings@,
                sessions@,
                current_meeting_key,
                now,
                result->0.months@,
                starts@,
                ends@,
                session_starts@,
                session_dates@,
                first,
                last,
            ));
        }
    }
    result
}

/// The season calendar of the rounds `race` (with their `phases`) once the instants and local
/// dates are known: `session_starts` and `session_dates` give, by session index, the start and
/// local date of each session (only those of counted sessions are read), `first` is the local
/// date of the first round's start and `last` that of the last round's end. `None` exactly when
/// the months would run past the last month chrono represents.
pub fn season_calendar_from_dates(
    race: &Vec<Meeting>,
    phases: &Vec<RacePhase>,
    sessions: &Vec<Session>,
    session_starts: &Vec<i64>,
    session_dates: &Vec<CalendarDate>,
    first: CalendarDate,
    last: CalendarDate,
) -> (r: Option<SeasonCalendar>)
    requires
        phases@.len() == race@.len(),
        session_starts@.len() == sessions@.len(),
        session_dates@.len() == sessions@.len(),
        valid_date(first),
        valid_date(last),
    ensures
        r is None <==> (month_number(first.year as int, first.month as int) <= month_number(
            last.year as int,
            last.month as int,
        ) && last.year == MAX_CALENDAR_YEAR && last.month == 12),
        r matches Some(c) ==> months_match(
            c.months@,
            marks_spec(race@, phases@, sessions@, session_starts@, session_dates@),
            first,
            last,
        ),
{
    let mut marks: Vec<SessionMark> = Vec::new();
    let mut j: usize = 0;
    while j < sessions.len()
        invariant
            j <= sessions@.len(),
            phases@.len() == race@.len(),
            session_starts@.len() == sessions@.len(),
            session_dates@.len() == sessions@.len(),
            marks@ == marks_spec(
                race@,
                phases@,
                sessions@.subrange(0, j as int),
                session_starts@,
                session_dates@,
            ),
        decreases sessions.len() - j,
    {
        let s = &sessions[j];
        let mut found: Option<usize> = None;
        if !s.is_cancelled {
            found = last_meeting_with_key(race, s.meeting_key);
        }
        proof {
            assert(sessions@.subrange(0, (j + 1) as int).drop_last() =~= sessions@.subrange(0, j as int));
            assert(sessions@.subrange(0, (j + 1) as int)[j as int] == sessions@[j as int]);
        }
        match found {
            Some(k) => {
                proof {
                    let w = choose|w: int| meta_index(race@, s.meeting_key, w);
                    lemma_meta_index_unique(race@, s.meeting_key, k as int, w);
                    assert(counted(race@, *s));
                }
                assert(k < race.len());
                marks.push(
                    SessionMark {
                        date: session_dates[j],
                        round: #[verifier::truncate] ((k + 1) as u32),
                        phase: phases[k],
                        meeting_name: race[k].meeting_name.clone(),
                        session: DaySession {
                            session_name: s.session_name.clone(),
                            starts_at: session_starts[j],
                        },
                    },
                );
            },
            None => {
                proof {
                    if !s.is_cancelled {
                        assert(!exists|w: int| meta_index(race@, s.meeting_key, w));
                    }
                    assert(!counted(race@, *s));
                }
            },
        }
        j = j + 1;
    }
    assert(sessions@.subrange(0, sessions@.len() as int) =~= sessions@);
    match calendar_months(&marks, first, last) {
        Some(months) => Some(SeasonCalendar { months }),
        None => None,
    }
}

} // verus!
