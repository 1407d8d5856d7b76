use std::collections::{HashMap, HashSet};
use f1_stalker::data::cache_policy::QualiGridData;
use f1_stalker::data::weekend::{
    assemble_weekend_at, grid_after_fetch, panel_after_fetch, weekend_details_at,
    weekend_fetch_plan, weekend_grid_step, ForecastPanel, GridStep, MeetingFetch, TrackPanel,
    WeatherPanel,
};
use f1_stalker::domain::grid::{GridSlot, QualiGridVisibility};
use f1_stalker::records::{Meeting, Session};

fn wk_at(text: &str) -> i64 {
    chrono::DateTime::parse_from_rfc3339(text).unwrap().timestamp_millis()
}

fn wk_meeting(key: i64) -> Meeting {
    Meeting {
        circuit_image: String::new(),
        circuit_info_url: String::new(),
        circuit_key: 1,
        circuit_short_name: "Test".into(),
        circuit_type: "Permanent".into(),
        country_code: "TST".into(),
        country_flag: String::new(),
        country_key: 1,
        country_name: "Testland".into(),
        date_end: "2026-03-10T00:00:00Z".into(),
        date_start: "2026-03-08T00:00:00Z".into(),
        gmt_offset: "00:00:00".into(),
        is_cancelled: false,
        location: "Test".into(),
        meeting_key: key,
        meeting_name: format!("GP {key}"),
        meeting_official_name: format!("GP {key}"),
        year: 2026,
    }
}

fn wk_quali(meeting_key: i64, end: &str) -> Session {
    Session {
        circuit_key: 1,
        circuit_short_name: "Test".into(),
        country_code: "TST".into(),
        country_key: 1,
        country_name: "Testland".into(),
        date_end: end.into(),
        date_start: "2026-03-08T12:00:00Z".into(),
        gmt_offset: "00:00:00".into(),
        is_cancelled: false,
        location: "Test".into(),
        meeting_key,
        session_key: 100,
        session_name: "Qualifying".into(),
        session_type: "Qualifying".into(),
        year: 2026,
    }
}

fn wk_grid(slots: usize) -> QualiGridData {
    QualiGridData {
        meeting_key: 1,
        slots: (0..slots)
            .map(|i| GridSlot { driver_number: 44, position: i as i64 + 1, gap_to_pole_ms: None })
            .collect(),
        fetched_at: 0,
    }
}

#[test]
fn grid_step_follows_pins_cache_and_qualifying() {
    let sessions = vec![wk_quali(1, "2026-03-08T13:00:00Z")];
    assert_eq!(weekend_grid_step(&vec![], &Some(wk_grid(1)), &sessions, 1), GridStep::Skip);
    assert_eq!(weekend_grid_step(&vec![44], &Some(wk_grid(1)), &sessions, 1), GridStep::UseCached);
    assert_eq!(weekend_grid_step(&vec![44], &Some(wk_grid(0)), &sessions, 1), GridStep::Fetch);
    assert_eq!(weekend_grid_step(&vec![44], &None, &sessions, 2), GridStep::Skip);
}

#[test]
fn failed_or_empty_grid_fetch_keeps_cache() {
    assert_eq!(grid_after_fetch(Some(wk_grid(2)), Some(wk_grid(1))).map(|g| g.slots.len()), Some(2));
    assert_eq!(grid_after_fetch(Some(wk_grid(0)), Some(wk_grid(1))).map(|g| g.slots.len()), Some(1));
    assert_eq!(grid_after_fetch(None, Some(wk_grid(1))).map(|g| g.slots.len()), Some(1));
    assert!(grid_after_fetch(None, None).is_none());
}

#[test]
fn fetch_plan_skips_cached_weather() {
    let meetings = vec![wk_meeting(1), wk_meeting(2)];
    let plan = weekend_fetch_plan(&meetings, &HashMap::from([(1, false)]), &HashSet::from([2]));
    assert_eq!(
        plan,
        vec![
            MeetingFetch { meeting_key: 1, fetch_track: false, fetch_forecast: true },
            MeetingFetch { meeting_key: 2, fetch_track: true, fetch_forecast: false },
        ]
    );
}

#[test]
fn cache_only_weekend_marks_missing_weather_loading() {
    let meetings = vec![wk_meeting(1), wk_meeting(2), wk_meeting(3)];
    let sessions = vec![wk_quali(2, "2026-03-08T13:00:00Z")];
    let now = wk_at("2026-03-08T14:00:00Z");
    let detail = assemble_weekend_at(
        2,
        &meetings,
        &sessions,
        &vec![44],
        Some(wk_grid(1)),
        &HashMap::from([(1, true), (2, false)]),
        &HashSet::from([3]),
        now,
    )
    .unwrap();
    assert_eq!(detail.quali_visibility, QualiGridVisibility::Ready);
    assert_eq!(detail.fetched_at, now);
    assert_eq!(
        detail.panels,
        vec![
            WeatherPanel { meeting_key: 1, forecast: ForecastPanel::Loading, track: TrackPanel::Ready },
            WeatherPanel { meeting_key: 2, forecast: ForecastPanel::Loading, track: TrackPanel::NoSessionData },
            WeatherPanel { meeting_key: 3, forecast: ForecastPanel::Ready, track: TrackPanel::Loading },
        ]
    );
    assert!(assemble_weekend_at(2, &vec![], &sessions, &vec![44], None, &HashMap::new(), &HashSet::new(), now).is_none());
}

#[test]
fn fetched_weekend_panels_and_visibility() {
    let panel = panel_after_fetch(5, Err("offline".to_string()), false);
    assert_eq!(panel.forecast, ForecastPanel::Error("offline".to_string()));
    assert_eq!(panel.track, TrackPanel::NoSessionData);
    assert_eq!(panel_after_fetch(5, Ok(()), true).track, TrackPanel::Ready);
    let sessions = vec![wk_quali(1, "2026-03-08T13:00:00Z")];
    let before = weekend_details_at(1, &sessions, &vec![44], None, vec![], wk_at("2026-03-08T12:30:00Z"));
    assert_eq!(before.quali_visibility, QualiGridVisibility::Hidden);
    let after = weekend_details_at(1, &sessions, &vec![44], None, vec![panel], wk_at("2026-03-08T14:00:00Z"));
    assert_eq!(after.quali_visibility, QualiGridVisibility::Pending);
    assert_eq!(after.panels.len(), 1);
}
