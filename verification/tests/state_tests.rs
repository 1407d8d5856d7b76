use f1_stalker::db::schema::{
    calendar_cache_key, championship_cache_key, drivers_cache_key, forecast_cache_key,
    quali_grid_cache_key, schema_sql, track_weather_cache_key, SETTING_SEASON_YEAR,
    SETTING_TIMEZONE,
};
use f1_stalker::db::settings::{parse_bool, Settings};
use f1_stalker::debug::log::{DebugLog, MAX_LINES};
use f1_stalker::domain::championship::{ChampionshipRoundSnapshot, DriverStandingSnapshot};
use f1_stalker::domain::drivers::PinnedDriver;
use f1_stalker::records::{Driver, Session};
use f1_stalker::state::bootstrap::{BootState, BootStepId, BootStepStatus};
use f1_stalker::state::plans::{
    cached_load, championship_refresh_needed, session_reminder_notice, session_reminder_plan,
    standings_change_notice, standings_notification_plan, weekend_refresh,
};
use f1_stalker::state::view::{ScrollbarVisibility, SCROLLBAR_HIDE_DELAY_MS};

fn at(text: &str) -> i64 {
    chrono::DateTime::parse_from_rfc3339(text).unwrap().timestamp_millis()
}

fn plan_driver(number: i64, acronym: &str) -> Driver {
    Driver {
        broadcast_name: acronym.into(),
        country_code: String::new(),
        driver_number: number,
        first_name: acronym.into(),
        full_name: format!("Driver {number}"),
        headshot_url: String::new(),
        last_name: acronym.into(),
        meeting_key: 1,
        name_acronym: acronym.into(),
        session_key: 1,
        team_colour: "3671C6".into(),
        team_name: "Team".into(),
    }
}

fn upcoming(name: &str, start: &str) -> Session {
    Session {
        circuit_key: 1,
        circuit_short_name: "Test".into(),
        country_code: "TST".into(),
        country_key: 1,
        country_name: "Testland".into(),
        date_end: start.into(),
        date_start: start.into(),
        gmt_offset: "00:00:00".into(),
        is_cancelled: false,
        location: "Test".into(),
        meeting_key: 1,
        session_key: 1,
        session_name: name.into(),
        session_type: name.into(),
        year: 2026,
    }
}

#[test]
fn cache_keys_name_kind_and_number() {
    assert_eq!(calendar_cache_key(2026), "calendar:2026");
    assert_eq!(drivers_cache_key(2026), "drivers:2026");
    assert_eq!(championship_cache_key(2025), "championship:2025");
    assert_eq!(forecast_cache_key(1286), "forecast:1286");
    assert_eq!(track_weather_cache_key(-3), "track_weather:-3");
    assert_eq!(quali_grid_cache_key(7), "quali_grid:7");
    assert!(schema_sql().contains("CREATE TABLE IF NOT EXISTS asset_cache"));
}

#[test]
fn stored_flags_accept_common_spellings() {
    assert!(parse_bool(" TRUE "));
    assert!(parse_bool("1"));
    assert!(parse_bool("yes"));
    assert!(!parse_bool("no"));
    assert!(!parse_bool(""));
}

#[test]
fn settings_survive_a_store_round_trip() {
    let mut chosen = Settings::default();
    chosen.season_year = 2025;
    chosen.timezone = "Europe/London".into();
    chosen.include_testing = true;
    chosen.session_reminder_minutes = -15;
    chosen.rival_driver_first = 44;
    chosen.rival_driver_second = 16;
    chosen.theme_id = "custom".into();
    let mut loaded = Settings::default();
    assert_eq!(loaded.theme_id, "dark");
    for (key, value) in chosen.stored_pairs() {
        loaded.apply_stored(key, &value);
    }
    assert_eq!(loaded.season_year, 2025);
    assert_eq!(loaded.timezone, "Europe/London");
    assert!(loaded.include_testing);
    assert_eq!(loaded.session_reminder_minutes, -15);
    assert_eq!(loaded.rival_driver_first, 44);
    assert_eq!(loaded.rival_driver_second, 16);
    assert!(loaded.rival_ready());
    assert!(!loaded.rival_compare_active());
    assert_eq!(loaded.theme_id, "custom");
}

#[test]
fn stored_settings_ignore_bad_values() {
    let mut s = Settings::default();
    s.apply_stored(SETTING_SEASON_YEAR, "next year");
    s.apply_stored(SETTING_TIMEZONE, "");
    s.apply_stored("unknown", "1");
    assert_eq!(s.season_year, 0);
    assert_eq!(s.timezone, "system");
    assert_eq!(s.effective_season(2026), 2026);
    s.apply_stored(SETTING_SEASON_YEAR, "+2024");
    assert_eq!(s.effective_season(2026), 2024);
}

#[test]
fn debug_log_keeps_the_latest_lines() {
    let mut log = DebugLog::new();
    log.info("2026-01-01 00:00:00", "starting");
    log.warn("2026-01-01 00:00:01", "slow");
    assert_eq!(log.entries_text(), "[2026-01-01 00:00:00] INFO: starting\n[2026-01-01 00:00:01] WARN: slow");
    for i in 0..(MAX_LINES + 5) {
        log.debug("t", &format!("line {i}"));
    }
    let entries = log.entries();
    assert_eq!(entries.len(), MAX_LINES);
    assert_eq!(entries.last().unwrap(), &format!("[t] DEBUG: line {}", MAX_LINES + 4));
    log.error("t", "boom");
    assert_eq!(log.entries().len(), MAX_LINES);
}

#[test]
fn scrollbar_hides_after_the_delay() {
    let mut bar = ScrollbarVisibility::default();
    bar.on_tick();
    assert!(!bar.visible);
    bar.on_scroll(50);
    let ticks = (SCROLLBAR_HIDE_DELAY_MS / 50) as usize;
    for _ in 0..ticks - 1 {
        bar.on_tick();
        assert!(bar.visible);
    }
    bar.on_tick();
    assert!(!bar.visible);
    bar.on_scroll(0);
    assert_eq!(bar.hide_after_ticks, 700);
    bar.on_scroll(5_000);
    assert_eq!(bar.hide_after_ticks, 1);
}

#[test]
fn boot_finishes_when_every_step_is_done() {
    let mut boot = BootState::new();
    assert!(boot.active);
    for id in [BootStepId::Settings, BootStepId::Calendar, BootStepId::Drivers, BootStepId::Championship] {
        boot.complete_step(id, "ok".to_string());
    }
    boot.try_finish();
    assert!(boot.active);
    boot.begin_media(2);
    boot.media_loaded();
    assert_eq!(boot.media_done, 1);
    boot.media_loaded();
    assert_eq!(boot.step_mut(BootStepId::Media).status, BootStepStatus::Done);
    boot.try_finish();
    assert!(!boot.active);
}

#[test]
fn notices_read_naturally() {
    let n = standings_change_notice("VER", 1, 25);
    assert_eq!(n.title, "Championship update");
    assert_eq!(n.body, "VER is now P1 with 25 points");
    let r = session_reminder_notice("Qualifying", "60 minutes");
    assert_eq!(r.title, "Upcoming session");
    assert_eq!(r.body, "Qualifying starts in 60 minutes");
}

#[test]
fn standings_plan_announces_pinned_drivers_once() {
    let settings = Settings::default();
    let rounds = vec![ChampionshipRoundSnapshot {
        round: 1,
        session_key: 10,
        meeting_key: 1,
        drivers: vec![
            DriverStandingSnapshot { driver_number: 1, position: 1, points: 25, race_points: 25 },
            DriverStandingSnapshot { driver_number: 44, position: 2, points: 18, race_points: 18 },
        ],
        teams: vec![],
        race_results: vec![],
        starting_grid: vec![],
    }];
    let pins = vec![PinnedDriver { driver_number: 44, sort_order: 0 }, PinnedDriver { driver_number: 5, sort_order: 1 }];
    let roster = vec![plan_driver(44, "HAM"), plan_driver(5, "VET")];
    let (signature, notices) = standings_notification_plan(&settings, &rounds, None, &pins, &roster).unwrap();
    assert_eq!(signature, "1:1:25|44:2:18");
    assert_eq!(notices.len(), 1);
    assert_eq!(notices[0].name, "HAM");
    assert_eq!(notices[0].position, 2);
    assert!(standings_notification_plan(&settings, &rounds, Some(signature.as_str()), &pins, &roster).is_none());
    let mut quiet = Settings::default();
    quiet.notify_standings = false;
    assert!(standings_notification_plan(&quiet, &rounds, None, &pins, &roster).is_none());
}

#[test]
fn session_plan_reminds_once_inside_the_lead_time() {
    let mut settings = Settings::default();
    settings.notify_sessions = true;
    let sessions = vec![upcoming("Qualifying", "2026-03-09T14:00:00Z")];
    assert!(session_reminder_plan(&settings, &sessions, at("2026-03-09T12:00:00Z"), None).is_none());
    let plan = session_reminder_plan(&settings, &sessions, at("2026-03-09T13:30:00Z"), None).unwrap();
    assert_eq!(plan.signature, "Qualifying:60");
    assert_eq!(plan.session_name, "Qualifying");
    assert!(session_reminder_plan(&settings, &sessions, at("2026-03-09T13:30:00Z"), Some("Qualifying:60")).is_none());
    assert!(session_reminder_plan(&Settings::default(), &sessions, at("2026-03-09T13:30:00Z"), None).is_none());
}

#[test]
fn refresh_decisions() {
    let load = cached_load(true, false);
    assert!(load.show_cached && load.stale && load.fetch);
    let load = cached_load(true, true);
    assert!(load.show_cached && !load.stale && !load.fetch);
    let load = cached_load(false, true);
    assert!(!load.show_cached && load.fetch);
    assert!(championship_refresh_needed(false, true, true));
    assert!(!championship_refresh_needed(false, true, false));
    let w = weekend_refresh(false, false, false, false);
    assert!(!w.fetch && w.stale_if_new && !w.stale_if_shown);
    let w = weekend_refresh(false, true, false, false);
    assert!(w.fetch && w.stale_if_shown);
}

#[test]
fn media_count_never_passes_the_total() {
    let mut boot = BootState::new();
    boot.begin_media(2);
    boot.media_loaded();
    boot.media_loaded();
    boot.media_loaded();
    assert_eq!(boot.media_done, 2);
    assert_eq!(boot.step_mut(BootStepId::Media).status, BootStepStatus::Done);
    boot.media_done = 7;
    boot.media_loaded();
    assert_eq!(boot.media_done, 2);
}
