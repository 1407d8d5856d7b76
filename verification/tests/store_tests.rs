use f1_stalker::domain::driver_assets::{driver_flag_url, team_logo_url};
use f1_stalker::state::media::{driver_media_urls, urls_to_fetch};
use f1_stalker::domain::calendar::RaceTriplet;
use f1_stalker::state::media::calendar_media_urls;
use chrono::Datelike;
use f1_stalker::data::cache_blobs::{
    drivers_from_cache, quali_grid_from_cache, DriversCacheBlob, DriversData, QualiGridCacheBlob,
};
use f1_stalker::data::cache_policy::{CacheEntry, ChampionshipData, QualiGridData};
use f1_stalker::data::championship::{map_race_results, SessionResultRow};
use f1_stalker::data::open_meteo::{meeting_dates, ForecastError};
use f1_stalker::data::weekend::WeekendDetail;
use f1_stalker::db::assets::asset_file_name;
use f1_stalker::domain::grid::{GridSlot, QualiGridVisibility};
use f1_stalker::records::{Driver, Meeting};
use f1_stalker::state::load::{AppLoads, LoadState, Loaded};

fn store_driver(number: i64) -> Driver {
    Driver {
        broadcast_name: "X".into(),
        country_code: "GBR".into(),
        driver_number: number,
        first_name: "A".into(),
        full_name: "A B".into(),
        headshot_url: String::new(),
        last_name: "B".into(),
        meeting_key: 1,
        name_acronym: "ABC".into(),
        session_key: 1,
        team_colour: "FF0000".into(),
        team_name: "Team".into(),
    }
}

fn store_meeting(start: &str, end: &str) -> Meeting {
    Meeting {
        circuit_image: String::new(),
        circuit_info_url: String::new(),
        circuit_key: 1,
        circuit_short_name: "Test".into(),
        circuit_type: "Permanent".into(),
        country_code: "TST".into(),
        country_flag: String::new(),
        country_key: 1,
        country_name: "Testland".into(),
        date_end: end.into(),
        date_start: start.into(),
        gmt_offset: "00:00:00".into(),
        is_cancelled: false,
        location: "Test".into(),
        meeting_key: 5,
        meeting_name: "Test GP".into(),
        meeting_official_name: "Test GP".into(),
        year: 2026,
    }
}

fn ce_day(y: i32, m: u32, d: u32) -> i64 {
    chrono::NaiveDate::from_ymd_opt(y, m, d).unwrap().num_days_from_ce() as i64
}

#[test]
fn asset_file_names_hash_the_url() {
    assert_eq!(
        asset_file_name(""),
        "e3b0c44298fc1c149afbf4c8996fb92427ae41e4649b934ca495991b7852b855.bin"
    );
    let name = asset_file_name("https://example.com/flags/nl.svg");
    assert_eq!(name.len(), 68);
    assert!(name.ends_with(".bin"));
    assert_ne!(name, asset_file_name("https://example.com/flags/gb.svg"));
}

#[test]
fn drivers_cache_round_trip() {
    let data = DriversData { season: 2026, drivers: vec![store_driver(1), store_driver(44)], fetched_at: 77 };
    let back = drivers_from_cache(DriversCacheBlob::from_drivers(&data));
    assert_eq!(back.season, 2026);
    assert_eq!(back.drivers, data.drivers);
    assert_eq!(back.fetched_at, 77);
}

#[test]
fn quali_grid_cache_round_trip() {
    let data = QualiGridData {
        meeting_key: 9,
        slots: vec![
            GridSlot { driver_number: 44, position: 3, gap_to_pole_ms: Some(250) },
            GridSlot { driver_number: 1, position: 1, gap_to_pole_ms: None },
        ],
        fetched_at: 5,
    };
    let back = quali_grid_from_cache(QualiGridCacheBlob::from_data(&data));
    assert_eq!(back.meeting_key, 9);
    assert_eq!(back.slots, data.slots);
    assert_eq!(back.fetched_at, 5);
}

#[test]
fn race_results_count_missing_points_as_zero() {
    let rows = vec![
        SessionResultRow { driver_number: 1, position: Some(1), number_of_laps: 57, dnf: false, dns: false, dsq: false, points: Some(25) },
        SessionResultRow { driver_number: 44, position: None, number_of_laps: 30, dnf: true, dns: false, dsq: false, points: None },
    ];
    let results = map_race_results(&rows);
    assert_eq!(results.len(), 2);
    assert_eq!(results[0].points, 25);
    assert_eq!(results[1].points, 0);
    assert!(results[1].dnf);
}

#[test]
fn meeting_dates_are_day_numbers() {
    let m = store_meeting("2026-03-06T01:30:00+00:00", "2026-03-08T05:00:00+00:00");
    assert_eq!(meeting_dates(&m), Ok((ce_day(2026, 3, 6), ce_day(2026, 3, 8))));
    let bad = store_meeting("soon", "2026-03-08T05:00:00+00:00");
    assert_eq!(meeting_dates(&bad), Err(ForecastError::InvalidResponse));
}

#[test]
fn expired_cache_stays_expired() {
    let entry = CacheEntry { fetched_at: 0, ttl_secs: 60 };
    assert!(!entry.is_expired(60_000));
    assert!(entry.is_expired(61_000));
    assert!(entry.is_expired(1_000_000));
}

fn weekend_at(fetched_at: i64) -> WeekendDetail {
    WeekendDetail { quali_grid: None, quali_visibility: QualiGridVisibility::Hidden, panels: vec![], fetched_at }
}

#[test]
fn loads_report_staleness_and_last_fetch() {
    let loads = AppLoads {
        load: LoadState::Loading,
        drivers: LoadState::Error {
            message: "offline".into(),
            cached: Some(Loaded { data: DriversData { season: 2026, drivers: vec![], fetched_at: 30 }, stale: true }),
        },
        championship: LoadState::Ready(Loaded {
            data: ChampionshipData { season: 2026, rounds: vec![], fetched_at: 50 },
            stale: false,
        }),
        weekend: LoadState::Ready(Loaded { data: weekend_at(40), stale: false }),
    };
    assert!(loads.is_any_stale());
    assert!(loads.is_stale());
    assert_eq!(loads.last_fetched_at(), Some(50));
    let empty = AppLoads {
        load: LoadState::Loading,
        drivers: LoadState::Loading,
        championship: LoadState::Error { message: "x".into(), cached: None },
        weekend: LoadState::Loading,
    };
    assert!(!empty.is_any_stale());
    assert_eq!(empty.last_fetched_at(), None);
}

#[test]
fn refresh_keeps_loaded_data_on_failure() {
    let ready: LoadState<i64> = LoadState::Ready(Loaded { data: 7, stale: false });
    let running = ready.refreshing();
    assert!(matches!(running, LoadState::Ready(Loaded { data: 7, stale: true })));
    let failed = running.after_fetch(Err("offline".into()), None);
    assert!(matches!(failed, LoadState::Ready(Loaded { data: 7, stale: true })));
    let fetched = failed.after_fetch(Ok(9), None);
    assert!(matches!(fetched, LoadState::Ready(Loaded { data: 9, stale: false })));
    let from_cache = LoadState::<i64>::Loading.after_fetch(Err("offline".into()), Some(3));
    assert!(matches!(from_cache, LoadState::Ready(Loaded { data: 3, stale: true })));
    let nothing = LoadState::<i64>::Loading.refreshing().after_fetch(Err("offline".into()), None);
    assert!(matches!(nothing, LoadState::Error { ref message, cached: None } if message == "offline"));
}

#[test]
fn media_urls_are_listed_once() {
    let mut a = store_driver(1);
    a.headshot_url = "https://img/1.png".into();
    a.country_code = "NED".into();
    let mut b = store_driver(44);
    b.headshot_url = "https://img/1.png".into();
    b.country_code = "NED".into();
    let mut c = store_driver(16);
    c.headshot_url = String::new();
    c.country_code = "MON".into();
    let (headshots, icons) = driver_media_urls(&vec![a.clone(), b, c.clone()]);
    assert_eq!(headshots, vec!["https://img/1.png".to_string()]);
    let flag = driver_flag_url(&a.country_code, a.driver_number, &a.name_acronym).unwrap();
    assert!(icons.contains(&flag));
    if let Some(logo) = team_logo_url(&a.team_name) {
        assert!(icons.contains(&logo));
    }
    let mut sorted = icons.clone();
    sorted.sort();
    sorted.dedup();
    assert_eq!(sorted.len(), icons.len());
    let urls = vec!["a".to_string(), String::new(), "b".to_string(), "c".to_string()];
    let picked = urls_to_fetch(&urls, &vec![false, false, true, false], &vec![false, false, false, true]);
    assert_eq!(picked, vec!["a".to_string()]);
    let _ = c;
}

#[test]
fn calendar_media_covers_the_triplet() {
    let mut previous = store_meeting("2026-03-01T00:00:00Z", "2026-03-03T00:00:00Z");
    previous.country_flag = "https://flags/bh.png".into();
    let mut current = store_meeting("2026-03-08T00:00:00Z", "2026-03-10T00:00:00Z");
    current.country_flag = "https://flags/sa.png".into();
    let triplet = RaceTriplet { previous: Some(previous), current: current.clone(), upcoming: current, current_is_weekend: false };
    let urls = calendar_media_urls(&triplet);
    assert_eq!(urls, vec!["https://flags/bh.png".to_string(), "https://flags/sa.png".to_string()]);
}

#[test]
fn loads_expose_what_is_shown() {
    let loads = AppLoads {
        load: LoadState::Loading,
        drivers: LoadState::Ready(Loaded {
            data: DriversData { season: 2026, drivers: vec![store_driver(4)], fetched_at: 1 },
            stale: false,
        }),
        championship: LoadState::Error { message: "x".into(), cached: None },
        weekend: LoadState::Error {
            message: "x".into(),
            cached: Some(Loaded {
                data: WeekendDetail { quali_grid: None, quali_visibility: QualiGridVisibility::Pending, panels: vec![], fetched_at: 2 },
                stale: true,
            }),
        },
    };
    assert!(loads.calendar().is_none());
    assert_eq!(loads.drivers_roster().map(|r| r.len()), Some(1));
    assert!(loads.championship_data().is_none());
    assert_eq!(loads.weekend_data().map(|w| w.fetched_at), Some(2));
    assert_eq!(loads.quali_visibility(), QualiGridVisibility::Pending);
}
