pub mod schema;
pub mod settings;
pub mod assets;
pub mod custom_theme;
