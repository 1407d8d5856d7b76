use vstd::prelude::*;

use crate::text::{append_text, i64_text, int_text, new_text};

verus! {

/// The tables of the local store.
pub const SCHEMA: &'static str = "
CREATE TABLE IF NOT EXISTS settings (
    key TEXT PRIMARY KEY NOT NULL,
    value TEXT NOT NULL
);

CREATE TABLE IF NOT EXISTS pinned_drivers (
    driver_number INTEGER PRIMARY KEY NOT NULL,
    sort_order INTEGER NOT NULL
);

CREATE TABLE IF NOT EXISTS cache (
    cache_key TEXT PRIMARY KEY NOT NULL,
    payload TEXT NOT NULL,
    fetched_at TEXT NOT NULL,
    ttl_secs INTEGER NOT NULL
);

CREATE TABLE IF NOT EXISTS asset_cache (
    url TEXT PRIMARY KEY NOT NULL,
    file_name TEXT NOT NULL UNIQUE,
    fetched_at TEXT NOT NULL,
    ttl_secs INTEGER NOT NULL,
    failed INTEGER NOT NULL DEFAULT 0
);
";

pub const SETTING_SEASON_YEAR: &'static str = "season_year";
pub const SETTING_TIMEZONE: &'static str = "timezone";
pub const SETTING_FIRST_RUN_COMPLETE: &'static str = "first_run_complete";
pub const SETTING_THEME_ID: &'static str = "theme_id";
pub const SETTING_BACKGROUND_ON_CLOSE: &'static str = "background_on_close";
pub const SETTING_INCLUDE_TESTING: &'static str = "include_testing";
pub const SETTING_NOTIFICATIONS_ENABLED: &'static str = "notifications_enabled";
pub const SETTING_NOTIFY_STANDINGS: &'static str = "notify_standings";
pub const SETTING_NOTIFY_SESSIONS: &'static str = "notify_sessions";
pub const SETTING_SESSION_REMINDER_MINUTES: &'static str = "session_reminder_minutes";
pub const SETTING_RIVAL_DRIVER_FIRST: &'static str = "rival_driver_first";
pub const SETTING_RIVAL_DRIVER_SECOND: &'static str = "rival_driver_second";
pub const SETTING_RIVAL_COMPARE_ACTIVE: &'static str = "rival_compare_active";
pub const SETTING_LAST_STANDINGS_SIGNATURE: &'static str = "last_standings_signature";
pub const SETTING_LAST_SESSION_REMINDER: &'static str = "last_session_reminder";
pub const DEFAULT_TIMEZONE: &'static str = "system";

/// The key of the theme preset a fresh install starts with (the dark one).
pub const DEFAULT_THEME_ID: &'static str = "dark";

pub const CALENDAR_CACHE_TTL_SECS: i64 = 21_600;
pub const DRIVERS_CACHE_TTL_SECS: i64 = 21_600;
pub const CHAMPIONSHIP_CACHE_TTL_SECS: i64 = 43_200;
pub const FORECAST_CACHE_TTL_SECS: i64 = 10_800;
pub const TRACK_WEATHER_CACHE_TTL_SECS: i64 = 3_600;
pub const QUALI_GRID_CACHE_TTL_SECS: i64 = 3_600;
pub const ASSET_CACHE_TTL_SECS: i64 = 2_592_000;
pub const ASSET_FAILED_TTL_SECS: i64 = 3_600;

/// The cache key of a kind of payload: the prefix, `:` and the number.
pub open spec fn keyed(prefix: Seq<char>, n: int) -> Seq<char> {
    prefix + ":"@ + int_text(n)
}

fn key_text(prefix: &str, n: i64) -> (r: String)
    ensures
        r@ == keyed(prefix@, n as int),
{
    let mut r = new_text(prefix);
    append_text(&mut r, ":");
    let digits = i64_text(n);
    append_text(&mut r, digits.as_str());
    r
}

pub fn calendar_cache_key(season: i32) -> (r: String)
    ensures
        r@ == keyed("calendar"@, season as int),
{
    key_text("calendar", season as i64)
}

pub fn drivers_cache_key(season: i32) -> (r: String)
    ensures
        r@ == keyed("drivers"@, season as int),
{
    key_text("drivers", season as i64)
}

pub fn championship_cache_key(season: i32) -> (r: String)
    ensures
        r@ == keyed("championship"@, season as int),
{
    key_text("championship", season as i64)
}

pub fn forecast_cache_key(meeting_key: i64) -> (r: String)
    ensures
        r@ == keyed("forecast"@, meeting_key as int),
{
    key_text("forecast", meeting_key)
}

pub fn track_weather_cache_key(meeting_key: i64) -> (r: String)
    ensures
        r@ == keyed("track_weather"@, meeting_key as int),
{
    key_text("track_weather", meeting_key)
}

pub fn quali_grid_cache_key(meeting_key: i64) -> (r: String)
    ensures
        r@ == keyed("quali_grid"@, meeting_key as int),
{
    key_text("quali_grid", meeting_key)
}

pub fn schema_sql() -> (r: &'static str)
    ensures
        r@ == SCHEMA@,
{
    SCHEMA
}

} // verus!
