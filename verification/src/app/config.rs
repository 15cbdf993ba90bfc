//! The in-memory model of `app.yaml`: configuration sources, overrides, proxy status and
//! settings, with their documented defaults.
use vstd::prelude::*;

verus! {

/// Where a configuration source comes from.
#[derive(Debug, Clone, Copy, PartialEq, Eq, Structural)]
pub enum SourceType {
    File,
    Http,
}

impl Default for SourceType {
    fn default() -> (r: Self)
        ensures
            r == SourceType::File,
    {
        SourceType::File
    }
}

/// The log level handed to the core (`silent` by default).
#[derive(Debug, Clone, Copy, PartialEq, Eq, Structural)]
pub enum LogLevel {
    Silent,
    Error,
    Warning,
    Info,
    Debug,
}

impl Default for LogLevel {
    fn default() -> (r: Self)
        ensures
            r == LogLevel::Silent,
    {
        LogLevel::Silent
    }
}

/// The colour theme (`system` by default).
#[derive(Debug, Clone, Copy, PartialEq, Eq, Structural)]
pub enum ThemeMode {
    System,
    Light,
    Dark,
}

impl Default for ThemeMode {
    fn default() -> (r: Self)
        ensures
            r == ThemeMode::System,
    {
        ThemeMode::System
    }
}

/// The TUN network stack (`gvisor` by default).
#[derive(Debug, Clone, Copy, PartialEq, Eq, Structural)]
pub enum TunStack {
    System,
    Gvisor,
    Mixed,
}

impl Default for TunStack {
    fn default() -> (r: Self)
        ensures
            r == TunStack::Gvisor,
    {
        TunStack::Gvisor
    }
}

/// Whether the system proxy and the TUN proxy are switched on.
#[derive(Debug, Clone, Copy, PartialEq, Eq, Structural)]
pub struct ProxyStatus {
    pub system: bool,
    pub tun: bool,
}

impl Default for ProxyStatus {
    fn default() -> (r: Self)
        ensures
            !r.system && !r.tun,
    {
        ProxyStatus { system: false, tun: false }
    }
}

/// One configuration source and the path of its internal copy.
#[derive(Debug)]
pub struct ConfigEntry {
    pub name: String,
    pub enabled: bool,
    pub source_type: SourceType,
    pub source_uri: String,
    pub path: String,
}

impl Default for ConfigEntry {
    fn default() -> (r: Self)
        ensures
            r.name@ == Seq::<char>::empty(),
            !r.enabled,
            r.source_type == SourceType::File,
            r.source_uri@ == Seq::<char>::empty(),
            r.path@ == Seq::<char>::empty(),
    {
        ConfigEntry {
            name: String::new(),
            enabled: false,
            source_type: SourceType::File,
            source_uri: String::new(),
            path: String::new(),
        }
    }
}

/// One override source, its merge rank `sort`, and the path of its internal copy.
#[derive(Debug)]
pub struct OverrideEntry {
    pub name: String,
    pub enabled: bool,
    pub source_type: SourceType,
    pub source_uri: String,
    pub sort: i64,
    pub path: String,
}

impl Default for OverrideEntry {
    fn default() -> (r: Self)
        ensures
            r.name@ == Seq::<char>::empty(),
            !r.enabled,
            r.source_type == SourceType::File,
            r.source_uri@ == Seq::<char>::empty(),
            r.sort == 0,
            r.path@ == Seq::<char>::empty(),
    {
        OverrideEntry {
            name: String::new(),
            enabled: false,
            source_type: SourceType::File,
            source_uri: String::new(),
            sort: 0,
            path: String::new(),
        }
    }
}

impl ConfigEntry {
    /// A field-by-field copy.
    pub fn duplicate(&self) -> (r: Self)
        ensures
            r == *self,
    {
        ConfigEntry {
            name: self.name.clone(),
            enabled: self.enabled,
            source_type: self.source_type,
            source_uri: self.source_uri.clone(),
            path: self.path.clone(),
        }
    }
}

impl OverrideEntry {
    /// A field-by-field copy.
    pub fn duplicate(&self) -> (r: Self)
        ensures
            r == *self,
    {
        OverrideEntry {
            name: self.name.clone(),
            enabled: self.enabled,
            source_type: self.source_type,
            source_uri: self.source_uri.clone(),
            sort: self.sort,
            path: self.path.clone(),
        }
    }
}

/// Application settings: start with the system, theme, start hidden.
#[derive(Debug, Clone, Copy, PartialEq, Eq, Structural)]
pub struct AppSettings {
    pub auto_start: bool,
    pub theme: ThemeMode,
    pub silent_start: bool,
}

impl Default for AppSettings {
    fn default() -> (r: Self)
        ensures
            !r.auto_start,
            r.theme == ThemeMode::System,
            !r.silent_start,
    {
        AppSettings { auto_start: false, theme: ThemeMode::System, silent_start: false }
    }
}


/// The text of each string, in order.
pub open spec fn strings_view(v: Seq<String>) -> Seq<Seq<char>> {
    v.map_values(|s: String| s@)
}

/// The default route exclusion list of the TUN settings.
pub open spec fn route_exclude_defaults() -> Seq<Seq<char>> {
    seq!["127.0.0.0/8"@, "10.0.0.0/8"@, "172.16.0.0/12"@, "192.168.0.0/16"@, "::1/128"@, "fc00::/7"@]
}

/// The default bypass list of the system proxy on Linux.
pub open spec fn bypass_defaults() -> Seq<Seq<char>> {
    seq!["localhost"@, "127.0.0.1"@, "192.168.0.0/16"@, "10.0.0.0/8"@, "172.16.0.0/12"@, "::1"@]
}

/// A list of strings holding the given texts.
pub fn strings_from(items: &[&str]) -> (r: Vec<String>)
    ensures
        strings_view(r@) == items@.map_values(|s: &str| s@),
{
    let mut r: Vec<String> = Vec::new();
    let mut i: usize = 0;
    while i < items.len()
        invariant
            i <= items.len(),
            r.len() == i,
            forall|j: int| 0 <= j < i ==> #[trigger] r@[j]@ == items@[j]@,
        decreases items.len() - i,
    {
        r.push(String::from_str(items[i]));
        i = i + 1;
    }
    assert(strings_view(r@) =~= items@.map_values(|s: &str| s@));
    r
}

/// The default route exclusion list of the TUN settings.
pub fn default_route_exclude_address() -> (r: Vec<String>)
    ensures
        strings_view(r@) == route_exclude_defaults(),
{
    let mut r: Vec<String> = Vec::new();
    r.push(String::from_str("127.0.0.0/8"));
    r.push(String::from_str("10.0.0.0/8"));
    r.push(String::from_str("172.16.0.0/12"));
    r.push(String::from_str("192.168.0.0/16"));
    r.push(String::from_str("::1/128"));
    r.push(String::from_str("fc00::/7"));
    assert(strings_view(r@) =~= route_exclude_defaults());
    r
}

/// The default list of addresses that bypass the system proxy (the list of the Linux
/// build; `platform` holds the lists of the other platforms).
pub fn default_proxy_bypass_list() -> (r: Vec<String>)
    ensures
        strings_view(r@) == bypass_defaults(),
{
    let mut r: Vec<String> = Vec::new();
    r.push(String::from_str("localhost"));
    r.push(String::from_str("127.0.0.1"));
    r.push(String::from_str("192.168.0.0/16"));
    r.push(String::from_str("10.0.0.0/8"));
    r.push(String::from_str("172.16.0.0/12"));
    r.push(String::from_str("::1"));
    assert(strings_view(r@) =~= bypass_defaults());
    r
}

/// Proxy settings: the bypass list.
#[derive(Debug)]
pub struct ProxySettings {
    pub bypass_list: Vec<String>,
}

impl Default for ProxySettings {
    fn default() -> (r: Self)
        ensures
            strings_view(r.bypass_list@) == bypass_defaults(),
    {
        ProxySettings { bypass_list: default_proxy_bypass_list() }
    }
}

/// The TUN section of the core settings.
#[derive(Debug)]
pub struct TunConfig {
    pub stack: TunStack,
    pub device: String,
    pub mtu: u32,
    pub strict_route: bool,
    pub auto_detect_interface: bool,
    pub auto_route: bool,
    pub route_exclude_address: Vec<String>,
    pub exclude_interface: Vec<String>,
}

impl TunConfig {
    /// Whether every field holds its documented default.
    pub open spec fn has_defaults(&self) -> bool {
        &&& self.stack == TunStack::Gvisor
        &&& self.device@ == "clash"@
        &&& self.mtu == 9000
        &&& self.strict_route
        &&& self.auto_detect_interface
        &&& self.auto_route
        &&& strings_view(self.route_exclude_address@) == route_exclude_defaults()
        &&& self.exclude_interface@.len() == 0
    }
}

impl Default for TunConfig {
    fn default() -> (r: Self)
        ensures
            r.has_defaults(),
    {
        TunConfig {
            stack: TunStack::Gvisor,
            device: String::from_str("clash"),
            mtu: 9000,
            strict_route: true,
            auto_detect_interface: true,
            auto_route: true,
            route_exclude_address: default_route_exclude_address(),
            exclude_interface: Vec::new(),
        }
    }
}

/// The core settings: log level, IPv6, LAN access, listen address, ports and TUN.
#[derive(Debug)]
pub struct ClashSettings {
    pub log_level: LogLevel,
    pub ipv6: bool,
    pub allow_lan: bool,
    pub bind_address: String,
    pub mixed_port: Option<u16>,
    pub port: Option<u16>,
    pub socks_port: Option<u16>,
    pub tun: TunConfig,
}

impl ClashSettings {
    /// Whether every field holds its documented default.
    pub open spec fn has_defaults(&self) -> bool {
        &&& self.log_level == LogLevel::Silent
        &&& self.ipv6
        &&& !self.allow_lan
        &&& self.bind_address@ == "127.0.0.1"@
        &&& self.mixed_port is None
        &&& self.port == Some(7890u16)
        &&& self.socks_port is None
        &&& self.tun.has_defaults()
    }
}

impl Default for ClashSettings {
    fn default() -> (r: Self)
        ensures
            r.has_defaults(),
    {
        ClashSettings {
            log_level: LogLevel::Silent,
            ipv6: true,
            allow_lan: false,
            bind_address: String::from_str("127.0.0.1"),
            mixed_port: None,
            port: Some(7890),
            socks_port: None,
            tun: TunConfig::default(),
        }
    }
}

/// The three settings sections: application, proxy and core.
#[derive(Debug)]
pub struct Settings {
    pub app: AppSettings,
    pub proxy: ProxySettings,
    pub clash: ClashSettings,
}

impl Settings {
    /// Whether every section holds its documented defaults.
    pub open spec fn has_defaults(&self) -> bool {
        &&& !self.app.auto_start
        &&& self.app.theme == ThemeMode::System
        &&& !self.app.silent_start
        &&& strings_view(self.proxy.bypass_list@) == bypass_defaults()
        &&& self.clash.has_defaults()
    }
}

impl Default for Settings {
    fn default() -> (r: Self)
        ensures
            r.has_defaults(),
    {
        Settings {
            app: AppSettings::default(),
            proxy: ProxySettings::default(),
            clash: ClashSettings::default(),
        }
    }
}

/// The whole of `app.yaml`.
#[derive(Debug)]
pub struct AppConfig {
    pub proxy_status: ProxyStatus,
    pub configs: Vec<ConfigEntry>,
    pub overrides: Vec<OverrideEntry>,
    pub settings: Settings,
}

impl Default for AppConfig {
    fn default() -> (r: Self)
        ensures
            !r.proxy_status.system,
            !r.proxy_status.tun,
            r.configs@.len() == 0,
            r.overrides@.len() == 0,
            r.settings.has_defaults(),
    {
        AppConfig {
            proxy_status: ProxyStatus::default(),
            configs: Vec::new(),
            overrides: Vec::new(),
            settings: Settings::default(),
        }
    }
}

} // verus!
