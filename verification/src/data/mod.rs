pub mod drivers;
pub mod open_meteo;
pub mod championship;
pub mod cache_policy;
pub mod cache_blobs;
pub mod weekend;
