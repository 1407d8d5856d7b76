use chrono::Datelike;
use f1_stalker::domain::calendar::compute_race_triplet;
use f1_stalker::domain::season_calendar::{
    build_season_calendar, calendar_months, CalendarDate, DaySession, RacePhase, SeasonCalendar,
    SeasonCalendarDay, SessionMark,
};
use f1_stalker::records::{Meeting, Session};

fn season_at(text: &str) -> i64 {
    chrono::DateTime::parse_from_rfc3339(text).unwrap().timestamp_millis()
}

fn season_meeting(key: i64, name: &str, start: &str, end: &str) -> Meeting {
    Meeting {
        circuit_image: String::new(),
        circuit_info_url: String::new(),
        circuit_key: 1,
        circuit_short_name: "Test".into(),
        circuit_type: "Permanent".into(),
        country_code: "TST".into(),
        country_flag: String::new(),
        country_key: 1,
        country_name: "Testland".into(),
        date_end: end.into(),
        date_start: start.into(),
        gmt_offset: "00:00:00".into(),
        is_cancelled: false,
        location: "Test".into(),
        meeting_key: key,
        meeting_name: name.into(),
        meeting_official_name: format!("{name} GP"),
        year: 2026,
    }
}

fn season_session(meeting_key: i64, name: &str, start: &str) -> Session {
    Session {
        circuit_key: 1,
        circuit_short_name: "Test".into(),
        country_code: "TST".into(),
        country_key: 1,
        country_name: "Testland".into(),
        date_end: start.into(),
        date_start: start.into(),
        gmt_offset: "00:00:00".into(),
        is_cancelled: false,
        location: "Test".into(),
        meeting_key,
        session_key: start.len() as i64,
        session_name: name.into(),
        session_type: name.into(),
        year: 2026,
    }
}

fn local_date(text: &str) -> CalendarDate {
    let d = chrono::DateTime::parse_from_rfc3339(text)
        .unwrap()
        .with_timezone(&chrono::Local)
        .date_naive();
    CalendarDate { year: d.year(), month: d.month(), day: d.day() }
}

fn ymd(year: i32, month: u32, day: u32) -> CalendarDate {
    CalendarDate { year, month, day }
}

fn day_by_date(calendar: &SeasonCalendar, date: CalendarDate) -> Option<&SeasonCalendarDay> {
    calendar
        .months
        .iter()
        .flat_map(|month| month.days.iter())
        .find(|day| day.date == date)
}

#[test]
fn spans_first_to_last_race_months() {
    let meetings = vec![
        season_meeting(1, "Bahrain", "2026-03-01T12:00:00Z", "2026-03-03T12:00:00Z"),
        season_meeting(2, "Monaco", "2026-06-01T12:00:00Z", "2026-06-03T12:00:00Z"),
    ];
    let sessions = vec![
        season_session(1, "Race", "2026-03-02T12:00:00Z"),
        season_session(2, "Race", "2026-06-02T12:00:00Z"),
    ];
    let now = season_at("2026-04-01T12:00:00Z");
    let triplet = compute_race_triplet(&meetings, now).unwrap();

    let calendar = build_season_calendar(&meetings, &sessions, &triplet, now).unwrap();
    assert!(calendar.months.len() >= 4);
    assert_eq!(calendar.months.first().map(|m| m.month), Some(3));
    assert_eq!(calendar.months.last().map(|m| m.month), Some(6));
}

#[test]
fn groups_sessions_on_same_day() {
    let meetings = vec![season_meeting(1, "Bahrain", "2026-03-01T00:00:00Z", "2026-03-03T00:00:00Z")];
    let sessions = vec![
        season_session(1, "Practice 1", "2026-03-01T10:00:00Z"),
        season_session(1, "Practice 2", "2026-03-01T14:00:00Z"),
        season_session(1, "Qualifying", "2026-03-02T14:00:00Z"),
    ];
    let now = season_at("2026-02-01T00:00:00Z");
    let triplet = compute_race_triplet(&meetings, now).unwrap();
    let calendar = build_season_calendar(&meetings, &sessions, &triplet, now).unwrap();

    let practice_day = day_by_date(&calendar, ymd(2026, 3, 1)).expect("practice day");
    assert_eq!(practice_day.sessions.len(), 2);
    assert_eq!(practice_day.round, Some(1));
    assert_eq!(practice_day.phase, Some(RacePhase::Current));
}

#[test]
fn assigns_past_current_and_future_phases() {
    let meetings = vec![
        season_meeting(1, "Bahrain", "2026-03-01T12:00:00Z", "2026-03-03T12:00:00Z"),
        season_meeting(2, "Monaco", "2026-06-01T12:00:00Z", "2026-06-03T12:00:00Z"),
        season_meeting(3, "Abu Dhabi", "2026-12-01T12:00:00Z", "2026-12-03T12:00:00Z"),
    ];
    let sessions = vec![
        season_session(1, "Race", "2026-03-02T12:00:00Z"),
        season_session(2, "Race", "2026-06-02T12:00:00Z"),
        season_session(3, "Race", "2026-12-02T12:00:00Z"),
    ];
    let now = season_at("2026-04-01T12:00:00Z");
    let triplet = compute_race_triplet(&meetings, now).unwrap();
    let calendar = build_season_calendar(&meetings, &sessions, &triplet, now).unwrap();

    let past = day_by_date(&calendar, ymd(2026, 3, 2)).unwrap();
    let current = day_by_date(&calendar, ymd(2026, 6, 2)).unwrap();
    let future = day_by_date(&calendar, ymd(2026, 12, 2)).unwrap();

    assert_eq!(past.phase, Some(RacePhase::Past));
    assert_eq!(current.phase, Some(RacePhase::Current));
    assert_eq!(future.phase, Some(RacePhase::Future));
}

#[test]
fn season_calendar_needs_an_uncancelled_meeting() {
    let mut cancelled = season_meeting(1, "Bahrain", "2026-03-01T12:00:00Z", "2026-03-03T12:00:00Z");
    cancelled.is_cancelled = true;
    let meetings = vec![cancelled.clone()];
    let current = season_meeting(2, "Monaco", "2026-06-01T12:00:00Z", "2026-06-03T12:00:00Z");
    let triplet = compute_race_triplet(&vec![current], 0).unwrap();
    assert!(build_season_calendar(&meetings, &Vec::new(), &triplet, 0).is_none());
}

#[test]
fn season_months_have_their_length_and_weekday() {
    let calendar = calendar_months(&Vec::new(), ymd(2024, 1, 15), ymd(2024, 3, 2)).unwrap();
    let lengths: Vec<usize> = calendar.iter().map(|m| m.days.len()).collect();
    assert_eq!(lengths, vec![31, 29, 31]);
    // 2024-01-01 was a Monday, 2024-02-01 a Thursday, 2024-03-01 a Friday.
    let blanks: Vec<usize> = calendar.iter().map(|m| m.leading_blanks).collect();
    assert_eq!(blanks, vec![0, 3, 4]);
    assert_eq!(calendar[1].days[28].date, ymd(2024, 2, 29));
    let century = calendar_months(&Vec::new(), ymd(1900, 2, 1), ymd(1900, 2, 1)).unwrap();
    assert_eq!(century[0].days.len(), 28);
    assert!(calendar_months(&Vec::new(), ymd(2024, 5, 1), ymd(2024, 4, 30)).unwrap().is_empty());
}

#[test]
fn season_day_sorts_sessions_and_keeps_last_meeting() {
    let day = ymd(2026, 3, 1);
    let mark = |name: &str, round: u32, meeting: &str, start: i64| SessionMark {
        date: day,
        round,
        phase: RacePhase::Future,
        meeting_name: meeting.to_string(),
        session: DaySession { session_name: name.to_string(), starts_at: start },
    };
    let marks = vec![
        mark("Practice 2", 1, "Bahrain", 20),
        mark("Practice 1", 1, "Bahrain", 10),
        mark("Race", 2, "Saudi", 30),
    ];
    let months = calendar_months(&marks, day, day).unwrap();
    let cell = &months[0].days[0];
    let names: Vec<&str> = cell.sessions.iter().map(|s| s.session_name.as_str()).collect();
    assert_eq!(names, vec!["Practice 1", "Practice 2", "Race"]);
    assert_eq!(cell.round, Some(2));
    assert_eq!(cell.meeting_name.as_deref(), Some("Saudi"));
    assert!(months[0].days[1].sessions.is_empty());
    assert_eq!(months[0].days[1].phase, None);
}

#[test]
fn season_sessions_go_on_their_local_date() {
    let meetings = vec![season_meeting(1, "Bahrain", "2026-03-01T00:00:00Z", "2026-03-03T00:00:00Z")];
    let sessions = vec![season_session(1, "Race", "2026-03-02T23:30:00Z")];
    let now = season_at("2026-02-01T00:00:00Z");
    let triplet = compute_race_triplet(&meetings, now).unwrap();
    let calendar = build_season_calendar(&meetings, &sessions, &triplet, now).unwrap();
    let day = day_by_date(&calendar, local_date("2026-03-02T23:30:00Z")).unwrap();
    assert_eq!(day.sessions.len(), 1);
    assert_eq!(day.meeting_name.as_deref(), Some("Bahrain"));
}
