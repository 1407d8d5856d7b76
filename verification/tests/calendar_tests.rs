use f1_stalker::domain::calendar::{
    apply_calendar_preferences, compute_race_triplet, is_testing_meeting, meetings_for_weather,
    next_session_reminder_at,
};
use f1_stalker::domain::countdown::{
    countdown_segments, format_countdown, format_countdown_precise, next_countdown,
    next_season_countdown, CountdownSegment, CountdownTarget, SessionSchedule,
};
use f1_stalker::records::{Meeting, Session};

fn at(text: &str) -> i64 {
    chrono::DateTime::parse_from_rfc3339(text).unwrap().timestamp_millis()
}

fn cal_meeting(key: i64, start: &str, end: &str) -> Meeting {
    Meeting {
        circuit_image: String::new(),
        circuit_info_url: String::new(),
        circuit_key: 1,
        circuit_short_name: "Test Circuit".into(),
        circuit_type: "Permanent".into(),
        country_code: "TST".into(),
        country_flag: String::new(),
        country_key: 1,
        country_name: "Testland".into(),
        date_end: end.into(),
        date_start: start.into(),
        gmt_offset: "00:00:00".into(),
        is_cancelled: false,
        location: "Test City".into(),
        meeting_key: key,
        meeting_name: format!("GP {key}"),
        meeting_official_name: format!("TEST GP {key}"),
        year: 2026,
    }
}

fn cal_session(name: &str, start: &str, end: &str) -> Session {
    Session {
        circuit_key: 1,
        circuit_short_name: "Test".into(),
        country_code: "TST".into(),
        country_key: 1,
        country_name: "Testland".into(),
        date_end: end.into(),
        date_start: start.into(),
        gmt_offset: "00:00:00".into(),
        is_cancelled: false,
        location: "Test".into(),
        meeting_key: 99,
        session_key: 1,
        session_name: name.into(),
        session_type: name.into(),
        year: 2026,
    }
}

#[test]
fn triplet_picks_previous_current_upcoming() {
    let meetings = vec![
        cal_meeting(1, "2026-03-01T00:00:00Z", "2026-03-03T00:00:00Z"),
        cal_meeting(2, "2026-03-08T00:00:00Z", "2026-03-10T00:00:00Z"),
        cal_meeting(3, "2026-03-15T00:00:00Z", "2026-03-17T00:00:00Z"),
    ];
    let now = at("2026-03-09T12:00:00Z");
    let triplet = compute_race_triplet(&meetings, now).unwrap();
    assert_eq!(triplet.previous.as_ref().map(|m| m.meeting_key), Some(1));
    assert_eq!(triplet.upcoming.meeting_key, 2);
    assert!(triplet.current_is_weekend);
}

#[test]
fn triplet_excludes_cancelled() {
    let mut cancelled = cal_meeting(1, "2026-03-01T00:00:00Z", "2026-03-03T00:00:00Z");
    cancelled.is_cancelled = true;
    let meetings = vec![cancelled, cal_meeting(2, "2026-03-08T00:00:00Z", "2026-03-10T00:00:00Z")];
    let now = at("2026-03-01T12:00:00Z");
    let triplet = compute_race_triplet(&meetings, now).unwrap();
    assert!(triplet.previous.is_none());
    assert_eq!(triplet.upcoming.meeting_key, 2);
}

#[test]
fn triplet_is_none_without_meetings() {
    let mut cancelled = cal_meeting(1, "2026-03-01T00:00:00Z", "2026-03-03T00:00:00Z");
    cancelled.is_cancelled = true;
    assert!(compute_race_triplet(&vec![cancelled], at("2026-03-01T12:00:00Z")).is_none());
    assert!(compute_race_triplet(&Vec::new(), at("2026-03-01T12:00:00Z")).is_none());
}

#[test]
fn weather_meetings_skip_repeated_upcoming() {
    let meetings = vec![
        cal_meeting(1, "2026-03-01T00:00:00Z", "2026-03-03T00:00:00Z"),
        cal_meeting(2, "2026-03-08T00:00:00Z", "2026-03-10T00:00:00Z"),
    ];
    let triplet = compute_race_triplet(&meetings, at("2026-03-09T12:00:00Z")).unwrap();
    let keys: Vec<i64> = meetings_for_weather(&triplet).iter().map(|m| m.meeting_key).collect();
    assert_eq!(keys, vec![1, 2]);
}

#[test]
fn testing_meetings_are_recognised() {
    let mut testing = cal_meeting(5, "2026-02-20T00:00:00Z", "2026-02-22T00:00:00Z");
    testing.meeting_name = "Pre-Season Testing".into();
    assert!(is_testing_meeting(&testing));
    let mut race = cal_meeting(6, "2026-03-01T00:00:00Z", "2026-03-03T00:00:00Z");
    assert!(is_testing_meeting(&race));
    race.meeting_official_name = "FORMULA 1 GRAND PRIX 2026".into();
    assert!(!is_testing_meeting(&race));
}

#[test]
fn preferences_drop_testing_meetings_and_their_sessions() {
    let mut testing = cal_meeting(5, "2026-02-20T00:00:00Z", "2026-02-22T00:00:00Z");
    testing.meeting_name = "Pre-Season Testing".into();
    let mut grand_prix = cal_meeting(6, "2026-03-01T00:00:00Z", "2026-03-03T00:00:00Z");
    grand_prix.meeting_official_name = "FORMULA 1 GRAND PRIX 2026".into();
    let mut meetings = vec![testing, grand_prix];
    let mut test_day = cal_session("Day 1", "2026-02-20T08:00:00Z", "2026-02-20T17:00:00Z");
    test_day.meeting_key = 5;
    let mut race = cal_session("Race", "2026-03-02T14:00:00Z", "2026-03-02T16:00:00Z");
    race.meeting_key = 6;
    let mut sessions = vec![test_day, race];
    let result = apply_calendar_preferences(&mut meetings, &mut sessions, false, at("2026-02-25T00:00:00Z"));
    assert_eq!(meetings.len(), 1);
    assert_eq!(sessions.len(), 1);
    assert_eq!(sessions[0].meeting_key, 6);
    assert!(result.is_some());
}

#[test]
fn reminder_is_lead_minutes_before_next_start() {
    let sessions = vec![
        cal_session("Practice 1", "2026-03-08T10:00:00Z", "2026-03-08T11:00:00Z"),
        cal_session("Qualifying", "2026-03-09T14:00:00Z", "2026-03-09T15:00:00Z"),
    ];
    let (remind_at, name) = next_session_reminder_at(&sessions, at("2026-03-08T12:00:00Z"), 60).unwrap();
    assert_eq!(name, "Qualifying");
    assert_eq!(remind_at, at("2026-03-09T13:00:00Z"));
    assert!(next_session_reminder_at(&sessions, at("2026-03-10T00:00:00Z"), 60).is_none());
}

#[test]
fn picks_next_session() {
    let schedule = SessionSchedule {
        meeting_key: 99,
        sessions: vec![
            cal_session("Practice 1", "2026-03-08T10:00:00Z", "2026-03-08T11:00:00Z"),
            cal_session("Qualifying", "2026-03-09T14:00:00Z", "2026-03-09T15:00:00Z"),
        ],
    };
    let target = next_countdown(&schedule, at("2026-03-08T12:00:00Z"));
    assert_eq!(
        target,
        CountdownTarget::NextSession {
            session_name: "Qualifying".into(),
            starts_at: at("2026-03-09T14:00:00Z"),
        }
    );
}

#[test]
fn advances_to_next_meeting_after_last_session() {
    let meetings = vec![cal_meeting(1, "2026-03-08T00:00:00Z", "2026-03-10T00:00:00Z")];
    let sessions = vec![
        cal_session("Race", "2026-03-09T14:00:00Z", "2026-03-09T16:00:00Z"),
        cal_session("Practice 1", "2026-03-15T10:00:00Z", "2026-03-15T11:00:00Z"),
    ];
    let target = next_season_countdown(&meetings, &sessions, at("2026-03-09T17:00:00Z"));
    assert_eq!(
        target,
        CountdownTarget::NextSession {
            session_name: "Practice 1".into(),
            starts_at: at("2026-03-15T10:00:00Z"),
        }
    );
}

#[test]
fn countdown_segments_include_days_when_needed() {
    let now = at("2026-01-01T00:00:00Z");
    let target = now + 2 * 86_400_000 + 3 * 3_600_000 + 4 * 60_000 + 5 * 1_000 + 6;
    let segments = countdown_segments(now, target);
    assert_eq!(
        segments,
        vec![
            CountdownSegment { value: "02".into(), label: "DAYS" },
            CountdownSegment { value: "03".into(), label: "HRS" },
            CountdownSegment { value: "04".into(), label: "MIN" },
            CountdownSegment { value: "05".into(), label: "SEC" },
            CountdownSegment { value: "006".into(), label: "MS" },
        ]
    );
    assert_eq!(format_countdown_precise(now, target), "02:03:04:05.006");
}

#[test]
fn countdown_segments_omit_days_under_one_day() {
    let now = at("2026-01-01T00:00:00Z");
    let target = now + 3_600_000 + 2 * 60_000 + 3 * 1_000 + 4;
    let segments = countdown_segments(now, target);
    assert_eq!(segments.len(), 4);
    assert_eq!(segments[0].label, "HRS");
    assert_eq!(format_countdown_precise(now, target), "01:02:03.004");
}

#[test]
fn countdown_in_the_past_reads_zero() {
    let now = at("2026-01-01T00:00:00Z");
    let segments = countdown_segments(now, now - 5_000);
    assert!(segments.iter().all(|s| s.value.chars().all(|c| c == '0')));
    assert!(!format_countdown(now, now + 90_061_000).is_empty());
}

#[test]
fn schedule_pending_during_active_meeting_without_future_sessions() {
    let meetings = vec![cal_meeting(1, "2026-03-08T00:00:00Z", "2026-03-10T00:00:00Z")];
    let sessions = vec![cal_session("Race", "2026-03-09T14:00:00Z", "2026-03-09T16:00:00Z")];
    let target = next_season_countdown(&meetings, &sessions, at("2026-03-09T17:00:00Z"));
    assert_eq!(target, CountdownTarget::SchedulePending);
}

#[test]
fn season_complete_after_last_meeting() {
    let meetings = vec![cal_meeting(1, "2026-03-08T00:00:00Z", "2026-03-10T00:00:00Z")];
    let sessions = vec![cal_session("Race", "2026-03-09T14:00:00Z", "2026-03-09T16:00:00Z")];
    let target = next_season_countdown(&meetings, &sessions, at("2026-04-01T00:00:00Z"));
    assert_eq!(target, CountdownTarget::SeasonComplete);
}
