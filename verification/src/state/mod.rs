pub mod bootstrap;
pub mod view;
pub mod plans;
pub mod load;
pub mod media;
pub mod boot_sync;
