pub mod api;
pub mod config_merge;
pub mod documents;
pub mod session;
pub mod streams;
