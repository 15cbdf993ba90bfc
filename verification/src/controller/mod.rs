pub mod address;
pub mod config;
pub mod connections;
pub mod home;
pub mod logs;
pub mod overrides;
pub mod proxy;
pub mod rules;
pub mod settings;
pub mod source;
pub mod speed_stats;
pub mod tray;
