//! Fixed paths and limits shared by the library.
use vstd::prelude::*;

verus! {

/// Directory of bundled resources, relative to the data root.
pub const ASSETS_DIR: &'static str = "resources";
/// The fixed document merged last into every runtime configuration.
pub const FIXED_YAML_PATH: &'static str = "resources/fixed.yaml";
/// The application's own configuration file.
pub const APP_CONFIG_PATH: &'static str = "data/app.yaml";
/// Internal copies of configuration sources.
pub const CONFIGS_DIR: &'static str = "data/configs";
/// Internal copies of override sources.
pub const OVERRIDES_DIR: &'static str = "data/overrides";
/// Where the runtime configuration is written.
pub const RUNTIME_DIR: &'static str = "data/runtime";
/// How many log records the log page keeps.
pub const MAX_LOG_RECORDS: usize = 1000;
/// The address a latency test requests when a group names none.
pub const DEFAULT_TEST_URL: &'static str = "https://www.gstatic.com/generate_204";
/// How long a latency test may take, in milliseconds.
pub const TEST_TIMEOUT_MS: u32 = 5000;

} // verus!
