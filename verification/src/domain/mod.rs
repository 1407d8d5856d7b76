pub mod driver_assets;
pub mod drivers;
pub mod countdown;
pub mod calendar;
pub mod grid;
pub mod championship;
pub mod standings;
pub mod narrative;
pub mod notifications;
pub mod weather;
pub mod podium;
pub mod rival;
pub mod driver_picker;
pub mod circuit_assets;
pub mod season_calendar;
pub mod time_format;
