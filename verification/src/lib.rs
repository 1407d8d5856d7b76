pub mod clock;
pub mod data;
pub mod db;
pub mod debug;
pub mod domain;
pub mod order;
pub mod records;
pub mod text;
pub mod state;
