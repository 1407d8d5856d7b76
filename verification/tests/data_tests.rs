use chrono::Datelike;
use f1_stalker::data::cache_blobs::{championship_from_cache, ChampionshipCacheBlob};
use f1_stalker::data::cache_policy::{
    cache_is_fresh, calendar_from_cache, championship_needs_refresh, quali_grid_needs_refresh,
    weekend_weather_needs_refresh, CacheEntry, CacheError, ChampionshipData, QualiGridData,
};
use f1_stalker::data::championship::{
    find_cached_round, map_driver_standings, map_team_standings, merge_missing_cached_rounds,
    round_has_championship_data, round_has_race_results, snapshot_with_round,
    ChampionshipDriverRow, ChampionshipEvent, ChampionshipFetch, ChampionshipStep,
    ChampionshipTeamRow,
};
use f1_stalker::data::drivers::dedupe_drivers;
use f1_stalker::data::open_meteo::{
    forecast_day_indices, forecast_request_dates, geocode_search_terms, meeting_forecast_window,
    pick_location, weather_code_description, ForecastError, GeocodeCandidate, FIRST_DAY,
    LAST_DAY,
};
use f1_stalker::domain::championship::{
    completed_race_sessions, ChampionshipRoundSnapshot, DriverStandingSnapshot,
    RaceResultSnapshot, TeamStandingSnapshot,
};
use f1_stalker::domain::grid::GridSlot;
use f1_stalker::records::{Driver, Meeting, Session};

fn at(text: &str) -> i64 {
    chrono::DateTime::parse_from_rfc3339(text).unwrap().timestamp_millis()
}

fn day(y: i32, m: u32, d: u32) -> i64 {
    chrono::NaiveDate::from_ymd_opt(y, m, d).unwrap().num_days_from_ce() as i64
}

fn named_driver(number: i64, name: &str) -> Driver {
    Driver {
        broadcast_name: name.into(),
        country_code: "GB".into(),
        driver_number: number,
        first_name: name.into(),
        full_name: name.into(),
        headshot_url: String::new(),
        last_name: name.into(),
        meeting_key: 1,
        name_acronym: name.into(),
        session_key: 1,
        team_colour: "3671C6".into(),
        team_name: "Team".into(),
    }
}

fn venue_meeting(country: &str, location: &str, circuit: &str) -> Meeting {
    Meeting {
        circuit_image: String::new(),
        circuit_info_url: String::new(),
        circuit_key: 22,
        circuit_short_name: circuit.into(),
        circuit_type: "Temporary - Street".into(),
        country_code: "MON".into(),
        country_flag: String::new(),
        country_key: 114,
        country_name: country.into(),
        date_end: "2026-06-07T15:00:00Z".into(),
        date_start: "2026-06-05T11:30:00Z".into(),
        gmt_offset: "02:00:00".into(),
        is_cancelled: false,
        location: location.into(),
        meeting_key: 1286,
        meeting_name: "Monaco Grand Prix".into(),
        meeting_official_name: "Monaco GP".into(),
        year: 2026,
    }
}

fn candidate(name: &str, country: &str, code: &str) -> GeocodeCandidate {
    GeocodeCandidate { name: name.into(), country: country.into(), country_code: code.into() }
}

fn race(key: i64, end: &str) -> Session {
    Session {
        circuit_key: 1,
        circuit_short_name: "Test".into(),
        country_code: "TST".into(),
        country_key: 1,
        country_name: "Testland".into(),
        date_end: end.into(),
        date_start: "2026-03-06T12:00:00Z".into(),
        gmt_offset: "00:00:00".into(),
        is_cancelled: false,
        location: "Test City".into(),
        meeting_key: key,
        session_key: key * 10,
        session_name: "Race".into(),
        session_type: "Race".into(),
        year: 2026,
    }
}

fn full_round(n: u32, session_key: i64, with_results: bool) -> ChampionshipRoundSnapshot {
    ChampionshipRoundSnapshot {
        round: n,
        session_key,
        meeting_key: session_key / 10,
        drivers: vec![DriverStandingSnapshot { driver_number: 1, position: 1, points: 25, race_points: 25 }],
        teams: vec![TeamStandingSnapshot { team_name: "Team".into(), position: 1, points: 43, race_points: 43 }],
        race_results: if with_results {
            vec![RaceResultSnapshot { driver_number: 1, classified_position: 1, dnf: false, dns: false, dsq: false, points: 25 }]
        } else {
            vec![]
        },
        starting_grid: vec![],
    }
}

#[test]
fn dedupe_keeps_latest_entry_per_number() {
    let drivers = dedupe_drivers(vec![named_driver(44, "HAM"), named_driver(44, "HAM2"), named_driver(1, "VER")]);
    assert_eq!(drivers.len(), 2);
    assert_eq!(drivers[0].driver_number, 1);
    assert_eq!(drivers[1].driver_number, 44);
    assert_eq!(drivers[1].name_acronym, "HAM");
}

#[test]
fn weather_code_labels_are_human_readable() {
    assert_eq!(weather_code_description(0), "Clear sky");
    assert_eq!(weather_code_description(63), "Rain");
    assert_eq!(weather_code_description(99), "Thunderstorm with hail");
    assert_eq!(weather_code_description(-4), "Unknown");
}

#[test]
fn picks_monaco_over_mexico_monte_carlo() {
    let meeting = venue_meeting("Monaco", "Monte Carlo", "Monte Carlo");
    let candidates = vec![candidate("Monte Carlo", "Mexico", "MX"), candidate("Monaco", "Monaco", "MC")];
    let picked = pick_location(&meeting, &candidates).unwrap();
    assert_eq!(candidates[picked].country_code, "MC");
}

#[test]
fn picks_country_match_when_available() {
    let meeting = venue_meeting("Italy", "Monza", "Monza");
    let candidates = vec![candidate("Monza", "Italy", "IT"), candidate("Monza", "Other", "XX")];
    let picked = pick_location(&meeting, &candidates).unwrap();
    assert_eq!(candidates[picked].country, "Italy");
}

#[test]
fn location_pick_falls_back_by_name_then_first() {
    let meeting = venue_meeting("Italy", "Monza", "Autodromo");
    let by_name = vec![candidate("Elsewhere", "France", "FR"), candidate("MONZA", "Brazil", "BR")];
    assert_eq!(pick_location(&meeting, &by_name), Some(1));
    let neither = vec![candidate("Paris", "France", "FR")];
    assert_eq!(pick_location(&meeting, &neither), Some(0));
    assert_eq!(pick_location(&meeting, &vec![]), None);
}

#[test]
fn monaco_search_terms_prefer_country() {
    let terms = geocode_search_terms(&venue_meeting("Monaco", "Monte Carlo", "Monte Carlo"));
    assert_eq!(terms.first().map(String::as_str), Some("Monaco"));
    assert_eq!(terms, vec!["Monaco", "Monte Carlo", "Monte Carlo Monaco"]);
}

#[test]
fn rejects_weekends_outside_forecast_window() {
    let today = day(2026, 6, 10);
    assert!(forecast_request_dates(day(2025, 5, 23), day(2025, 5, 25), today).is_err());
    assert_eq!(
        forecast_request_dates(day(2026, 9, 5), day(2026, 9, 7), today),
        Err(ForecastError::TooFarAhead)
    );
}

#[test]
fn clamps_weekend_into_forecast_window() {
    let today = day(2026, 6, 10);
    let start = day(2026, 6, 5);
    let end = day(2026, 6, 7);
    let (request_start, request_end) = forecast_request_dates(start, end, today).unwrap();
    assert_eq!(request_start, start);
    assert_eq!(request_end, end);
    let (s, e) = forecast_request_dates(day(2026, 6, 24), day(2026, 6, 28), today).unwrap();
    assert_eq!(s, day(2026, 6, 24));
    assert_eq!(e, day(2026, 6, 26));
}

#[test]
fn calendar_limits_match_chrono() {
    assert_eq!(chrono::NaiveDate::MIN.num_days_from_ce() as i64, FIRST_DAY);
    assert_eq!(chrono::NaiveDate::MAX.num_days_from_ce() as i64, LAST_DAY);
}

#[test]
fn meeting_window_and_forecast_days() {
    let meeting = venue_meeting("Monaco", "Monte Carlo", "Monte Carlo");
    let window = meeting_forecast_window(&meeting, day(2026, 6, 1)).unwrap();
    assert_eq!(window, (day(2026, 6, 5), day(2026, 6, 7)));
    let mut broken = meeting.clone();
    broken.date_start = "soon".into();
    assert_eq!(meeting_forecast_window(&broken, day(2026, 6, 1)), Err(ForecastError::InvalidResponse));
    let times = vec!["2026-06-04".to_string(), "2026-06-05".into(), "bad".into(), "2026-06-07".into()];
    let picked = forecast_day_indices(&times, window.0, window.1).unwrap();
    assert_eq!(picked, vec![(1, day(2026, 6, 5)), (3, day(2026, 6, 7))]);
    assert_eq!(forecast_day_indices(&vec!["2026-01-01".to_string()], window.0, window.1), Err(ForecastError::NoOverlap));
    assert_eq!(ForecastError::NoOverlap.message(), "forecast unavailable: No forecast days overlap this race weekend");
}

#[test]
fn cache_entries_expire_after_their_time_to_live() {
    let entry = CacheEntry { fetched_at: at("2026-01-01T00:00:00Z"), ttl_secs: 3_600 };
    assert!(cache_is_fresh(&entry, at("2026-01-01T01:00:00Z")));
    assert!(cache_is_fresh(&entry, at("2026-01-01T01:00:00.999Z")));
    assert!(!cache_is_fresh(&entry, at("2026-01-01T01:00:01Z")));
    assert!(!entry.is_expired(at("2025-12-31T00:00:00Z")));
}

#[test]
fn detects_missing_completed_rounds() {
    let now = at("2026-04-01T12:00:00Z");
    let sessions = vec![race(1, "2026-03-06T15:00:00Z"), race(2, "2026-03-20T15:00:00Z")];
    let mut only = full_round(1, 10, false);
    only.drivers.clear();
    only.teams.clear();
    let cached = ChampionshipData { season: 2026, rounds: vec![only], fetched_at: now };
    assert!(championship_needs_refresh(Some(&cached), &sessions, now));
}

#[test]
fn skips_refresh_when_all_completed_rounds_cached() {
    let now = at("2026-04-01T12:00:00Z");
    let sessions = vec![race(1, "2026-03-06T15:00:00Z")];
    let cached = ChampionshipData { season: 2026, rounds: vec![full_round(1, 10, true)], fetched_at: now };
    assert!(!championship_needs_refresh(Some(&cached), &sessions, now));
    let incomplete = ChampionshipData { season: 2026, rounds: vec![full_round(1, 10, false)], fetched_at: now };
    assert!(championship_needs_refresh(Some(&incomplete), &sessions, now));
    assert!(championship_needs_refresh(None, &sessions, now));
}

#[test]
fn reuses_cached_rounds_by_session_key() {
    let existing = ChampionshipData { season: 2026, rounds: vec![full_round(99, 10, true)], fetched_at: 0 };
    let sessions = vec![race(1, "2026-03-06T15:00:00Z")];
    let completed = completed_race_sessions(&sessions, at("2026-04-01T12:00:00Z"));
    assert_eq!(completed.len(), 1);
    assert!(find_cached_round(&existing.rounds, 10).is_some());
    assert!(round_has_race_results(&existing.rounds[0]));
    assert!(round_has_championship_data(&existing.rounds[0]));
}

#[test]
fn weather_refresh_needs_a_stale_meeting() {
    let meetings = vec![venue_meeting("Monaco", "Monte Carlo", "Monte Carlo")];
    assert!(!weekend_weather_needs_refresh(&meetings, &vec![true], &vec![true]));
    assert!(weekend_weather_needs_refresh(&meetings, &vec![true], &vec![false]));
    assert!(!weekend_weather_needs_refresh(&vec![], &vec![], &vec![]));
}

#[test]
fn grid_refresh_waits_for_qualifying() {
    let meeting = venue_meeting("Italy", "Monza", "Monza");
    let mut quali = race(1, "2026-03-07T15:00:00Z");
    quali.meeting_key = meeting.meeting_key;
    quali.session_name = "Qualifying".into();
    quali.session_type = "Qualifying".into();
    let sessions = vec![quali];
    assert!(!quali_grid_needs_refresh(&meeting, &sessions, None, at("2026-03-07T14:00:00Z")));
    assert!(quali_grid_needs_refresh(&meeting, &sessions, None, at("2026-03-07T16:00:00Z")));
    let cached = QualiGridData {
        meeting_key: meeting.meeting_key,
        slots: vec![GridSlot { driver_number: 1, position: 1, gap_to_pole_ms: None }],
        fetched_at: 0,
    };
    assert!(!quali_grid_needs_refresh(&meeting, &sessions, Some(&cached), at("2026-03-07T16:00:00Z")));
    assert!(!quali_grid_needs_refresh(&meeting, &vec![], None, at("2026-03-07T16:00:00Z")));
}

#[test]
fn cached_calendar_needs_a_meeting() {
    let now = at("2026-06-01T00:00:00Z");
    let data = calendar_from_cache(2026, vec![venue_meeting("Monaco", "Monte Carlo", "Monte Carlo")], vec![], 5, now).unwrap();
    assert_eq!(data.triplet.current.meeting_key, 1286);
    assert_eq!(data.fetched_at, 5);
    assert_eq!(calendar_from_cache(2026, vec![], vec![], 5, now).err(), Some(CacheError::EmptySeason));
}

#[test]
fn standings_rows_map_gained_points() {
    let drivers = map_driver_standings(&vec![ChampionshipDriverRow { driver_number: 4, position_current: 2, points_current: 30, points_start: 12 }]);
    assert_eq!(drivers[0], DriverStandingSnapshot { driver_number: 4, position: 2, points: 30, race_points: 18 });
    let teams = map_team_standings(&vec![ChampionshipTeamRow { team_name: "McLaren".into(), position_current: 1, points_current: i64::MIN, points_start: 1 }]);
    assert_eq!(teams[0].race_points, i64::MIN);
}

#[test]
fn renumbered_snapshot_keeps_the_data() {
    let cached = full_round(9, 10, true);
    let copy = snapshot_with_round(3, &cached);
    assert_eq!(copy.round, 3);
    assert_eq!(copy.session_key, 10);
    assert_eq!(copy.race_results, cached.race_results);
}

#[test]
fn merge_restores_missing_rounds_in_order() {
    let sessions = vec![race(1, "2026-03-06T15:00:00Z"), race(2, "2026-03-20T15:00:00Z")];
    let completed = completed_race_sessions(&sessions, at("2026-04-01T12:00:00Z"));
    let mut rounds = vec![full_round(2, 20, true)];
    let cached = vec![full_round(7, 10, true)];
    merge_missing_cached_rounds(&mut rounds, &completed, &cached);
    let keys: Vec<(u32, i64)> = rounds.iter().map(|r| (r.round, r.session_key)).collect();
    assert_eq!(keys, vec![(1, 10), (2, 20)]);
}

#[test]
fn fetch_reuses_complete_cache_and_fetches_the_rest() {
    let sessions = vec![race(1, "2026-03-06T15:00:00Z"), race(2, "2026-03-20T15:00:00Z"), race(3, "2026-03-27T15:00:00Z")];
    let completed = completed_race_sessions(&sessions, at("2026-04-01T12:00:00Z"));
    let cached = vec![full_round(1, 10, true), full_round(2, 20, false)];
    let mut fetch = ChampionshipFetch::new(completed, cached);
    let step = fetch.advance();
    assert_eq!(step, ChampionshipStep::FetchRaceResults { round: 2, session_key: 20 });
    let results = vec![RaceResultSnapshot { driver_number: 1, classified_position: 1, dnf: false, dns: false, dsq: false, points: 25 }];
    let step = fetch.resume(ChampionshipEvent::RaceResults(Some(results)));
    assert_eq!(step, ChampionshipStep::FetchRound { round: 3, session_key: 30, meeting_key: 3, pause_first: true });
    let step = fetch.resume(ChampionshipEvent::Round(Some(full_round(3, 30, true))));
    assert_eq!(step, ChampionshipStep::Finished);
    let rounds: Vec<u32> = fetch.rounds.iter().map(|r| r.round).collect();
    assert_eq!(rounds, vec![1, 2, 3]);
    assert_eq!(fetch.rounds[1].race_results.len(), 1);
}

#[test]
fn fetch_fails_when_first_round_is_missing() {
    let sessions = vec![race(1, "2026-03-06T15:00:00Z")];
    let completed = completed_race_sessions(&sessions, at("2026-04-01T12:00:00Z"));
    let mut fetch = ChampionshipFetch::new(completed, vec![]);
    let step = fetch.advance();
    assert_eq!(step, ChampionshipStep::FetchRound { round: 1, session_key: 10, meeting_key: 1, pause_first: false });
    assert_eq!(fetch.resume(ChampionshipEvent::Round(None)), ChampionshipStep::Failed);
}

#[test]
fn fetch_without_completed_races_is_empty() {
    let mut fetch = ChampionshipFetch::new(vec![], vec![full_round(1, 10, true)]);
    assert_eq!(fetch.advance(), ChampionshipStep::Finished);
    assert!(fetch.rounds.is_empty());
}

#[test]
fn championship_cache_round_trip_drops_the_grid() {
    let mut r = full_round(1, 10, true);
    r.starting_grid = vec![GridSlot { driver_number: 1, position: 1, gap_to_pole_ms: None }];
    let data = ChampionshipData { season: 2026, rounds: vec![r], fetched_at: 77 };
    let back = championship_from_cache(ChampionshipCacheBlob::from_data(&data));
    assert_eq!(back.season, 2026);
    assert_eq!(back.fetched_at, 77);
    assert_eq!(back.rounds[0].teams, data.rounds[0].teams);
    assert_eq!(back.rounds[0].drivers, data.rounds[0].drivers);
    assert!(back.rounds[0].starting_grid.is_empty());
}
