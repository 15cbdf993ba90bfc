//! The proxy endpoint of the running core as the tray and the home page use it: which
//! ports serve HTTP and SOCKS, the address shown, and the commands that set the proxy
//! variables of a terminal.
use vstd::prelude::*;
use vstd::string::*;
use crate::clash::api::Configs;
use crate::app::config::ProxyStatus;
use crate::text::{decimal, push_decimal, trimmed, trim_text};

verus! {

/// The terminal whose syntax a copied command uses.
#[derive(Debug, Clone, Copy, PartialEq, Eq, Structural)]
pub enum Terminal {
    PowerShell,
    Cmd,
    Bash,
}

/// The ports of the core usable for a system proxy; `None` where none is open.
#[derive(Debug, Clone, Copy, PartialEq, Eq, Structural)]
pub struct ProxyPorts {
    pub mixed: Option<u16>,
    pub http: Option<u16>,
    pub socks: Option<u16>,
}

/// The proxy endpoint of the core: its listen address and ports.
#[derive(Debug, Clone)]
pub struct ProxyEndpoint {
    pub host: String,
    pub ports: ProxyPorts,
}

/// `scheme://host:port`.
pub open spec fn proxy_url(scheme: Seq<char>, host: Seq<char>, port: u16) -> Seq<char> {
    scheme + "://"@ + host + ":"@ + decimal(port as nat)
}

/// The command that sets variable `name` to `url` in a terminal.
pub open spec fn env_line(terminal: Terminal, name: Seq<char>, url: Seq<char>) -> Seq<char> {
    match terminal {
        Terminal::PowerShell => "$env:"@ + name + "=\""@ + url + "\""@,
        Terminal::Cmd => "set "@ + name + "="@ + url,
        Terminal::Bash => "export "@ + name + "="@ + url,
    }
}

/// The commands for a terminal: `HTTP_PROXY` and `HTTPS_PROXY` when there is an HTTP
/// port, then `ALL_PROXY` (SOCKS5) when there is a SOCKS port.
pub open spec fn env_lines(terminal: Terminal, host: Seq<char>, http: Option<u16>, socks: Option<u16>) -> Seq<Seq<char>> {
    let h = match http {
        Some(p) => seq![
            env_line(terminal, "HTTP_PROXY"@, proxy_url("http"@, host, p)),
            env_line(terminal, "HTTPS_PROXY"@, proxy_url("http"@, host, p)),
        ],
        None => Seq::empty(),
    };
    let s = match socks {
        Some(p) => seq![env_line(terminal, "ALL_PROXY"@, proxy_url("socks5"@, host, p))],
        None => Seq::empty(),
    };
    h + s
}

/// The lines joined with `\n` between them.
pub open spec fn joined_lines(lines: Seq<Seq<char>>) -> Seq<char>
    decreases lines.len(),
{
    if lines.len() == 0 {
        Seq::empty()
    } else if lines.len() == 1 {
        lines[0]
    } else {
        joined_lines(lines.drop_last()) + "\n"@ + lines.last()
    }
}

fn url_text(scheme: &str, host: &str, port: u16) -> (r: String)
    ensures
        r@ == proxy_url(scheme@, host@, port),
{
    let mut s = String::from_str(scheme);
    s.append("://");
    s.append(host);
    s.append(":");
    push_decimal(&mut s, port as u64);
    s
}

fn env_text(terminal: Terminal, name: &str, url: &String) -> (r: String)
    ensures
        r@ == env_line(terminal, name@, url@),
{
    match terminal {
        Terminal::PowerShell => {
            let mut s = String::from_str("$env:");
            s.append(name);
            s.append("=\"");
            s.append(url.as_str());
            s.append("\"");
            s
        },
        Terminal::Cmd => {
            let mut s = String::from_str("set ");
            s.append(name);
            s.append("=");
            s.append(url.as_str());
            s
        },
        Terminal::Bash => {
            let mut s = String::from_str("export ");
            s.append(name);
            s.append("=");
            s.append(url.as_str());
            s
        },
    }
}

/// The commands that point a terminal's proxy variables at the core, one per line.
pub fn proxy_env_command(terminal: Terminal, host: &str, http: Option<u16>, socks: Option<u16>) -> (r: String)
    ensures
        r@ == joined_lines(env_lines(terminal, host@, http, socks)),
{
    let mut lines: Vec<String> = Vec::new();
    if let Some(port) = http {
        let url = url_text("http", host, port);
        lines.push(env_text(terminal, "HTTP_PROXY", &url));
        lines.push(env_text(terminal, "HTTPS_PROXY", &url));
    }
    if let Some(port) = socks {
        let url = url_text("socks5", host, port);
        lines.push(env_text(terminal, "ALL_PROXY", &url));
    }
    let ghost want = env_lines(terminal, host@, http, socks);
    proof {
        assert(lines@.map_values(|s: String| s@) =~= want);
    }
    let mut out = String::new();
    let mut i: usize = 0;
    while i < lines.len()
        invariant
            i <= lines.len(),
            lines@.map_values(|s: String| s@) == want,
            out@ == joined_lines(want.subrange(0, i as int)),
        decreases lines.len() - i,
    {
        proof {
            assert(want.subrange(0, i + 1).drop_last() =~= want.subrange(0, i as int));
            assert(want[i as int] == lines@[i as int]@);
        }
        if i > 0 {
            out.append("\n");
        }
        out.append(lines[i].as_str());
        proof {
            if i == 0 {
                assert(out@ =~= want.subrange(0, 1)[0]);
            }
        }
        i = i + 1;
    }
    proof { assert(want.subrange(0, lines.len() as int) =~= want); }
    out
}

/// The ports as the tray uses them: a mixed port serves both protocols; otherwise the
/// separate ports, a port of 0 being closed.
pub open spec fn ports_of(mixed_port: u16, http_port: u16, socks_port: u16) -> ProxyPorts {
    if mixed_port != 0 {
        ProxyPorts { mixed: Some(mixed_port), http: Some(mixed_port), socks: Some(mixed_port) }
    } else {
        ProxyPorts {
            mixed: None,
            http: if http_port != 0 { Some(http_port) } else { None },
            socks: if socks_port != 0 { Some(socks_port) } else { None },
        }
    }
}

/// The usable ports from the ports the core reports.
pub fn map_ports(mixed_port: u16, http_port: u16, socks_port: u16) -> (r: ProxyPorts)
    ensures
        r == ports_of(mixed_port, http_port, socks_port),
{
    if mixed_port != 0 {
        return ProxyPorts { mixed: Some(mixed_port), http: Some(mixed_port), socks: Some(mixed_port) };
    }
    ProxyPorts {
        mixed: None,
        http: if http_port != 0 { Some(http_port) } else { None },
        socks: if socks_port != 0 { Some(socks_port) } else { None },
    }
}

/// The proxy address the home page shows: the mixed port over HTTP first, then the SOCKS
/// port, then the HTTP port.
pub open spec fn address_of(host: Seq<char>, ports: ProxyPorts) -> Option<Seq<char>> {
    match ports.mixed {
        Some(p) => Some(proxy_url("http"@, host, p)),
        None => match ports.socks {
            Some(p) => Some(proxy_url("socks5"@, host, p)),
            None => match ports.http {
                Some(p) => Some(proxy_url("http"@, host, p)),
                None => None,
            },
        },
    }
}

/// The proxy address the home page shows, if the core has an open port.
pub fn proxy_address(endpoint: &ProxyEndpoint) -> (r: Option<String>)
    ensures
        match address_of(endpoint.host@, endpoint.ports) {
            Some(a) => r is Some && r->Some_0@ == a,
            None => r is None,
        },
{
    if let Some(port) = endpoint.ports.mixed {
        return Some(url_text("http", endpoint.host.as_str(), port));
    }
    if let Some(port) = endpoint.ports.socks {
        return Some(url_text("socks5", endpoint.host.as_str(), port));
    }
    match endpoint.ports.http {
        Some(port) => Some(url_text("http", endpoint.host.as_str(), port)),
        None => None,
    }
}

/// The endpoint from the configuration the core reports: its trimmed listen address,
/// which must not be empty, and its ports.
pub fn proxy_endpoint_from_configs(configs: &Configs) -> (r: Result<ProxyEndpoint, String>)
    ensures
        trimmed(configs.bind_address@).len() == 0 <==> r is Err,
        r is Err ==> r->Err_0@ == "Clash API 未返回代理地址"@,
        r is Ok ==> r->Ok_0.host@ == trimmed(configs.bind_address@)
            && r->Ok_0.ports == ports_of(configs.mixed_port, configs.port, configs.socks_port),
{
    let host = trim_text(configs.bind_address.as_str());
    if host.as_str().unicode_len() == 0 {
        return Err(String::from_str("Clash API 未返回代理地址"));
    }
    Ok(ProxyEndpoint { host, ports: map_ports(configs.mixed_port, configs.port, configs.socks_port) })
}

/// What copying the proxy commands ends in: the text to copy, or why there is none. The
/// core must be running, its endpoint known, and an HTTP or SOCKS port open.
pub fn proxy_env_for_copy(
    core_running: bool,
    endpoint: Result<ProxyEndpoint, String>,
    terminal: Terminal,
) -> (r: Result<String, String>)
    ensures
        !core_running ==> r is Err && r->Err_0@ == "获取代理环境变量失败：Clash 核心未运行"@,
        core_running && endpoint is Err ==> r is Err
            && r->Err_0@ == "获取代理环境变量失败："@ + endpoint->Err_0@,
        core_running && endpoint is Ok && endpoint->Ok_0.ports.http is None && endpoint->Ok_0.ports.socks is None
            ==> r is Err && r->Err_0@ == "没有可用的代理端口，无法复制代理环境变量"@,
        core_running && endpoint is Ok && !(endpoint->Ok_0.ports.http is None && endpoint->Ok_0.ports.socks is None)
            ==> r is Ok && r->Ok_0@ == joined_lines(env_lines(terminal, endpoint->Ok_0.host@, endpoint->Ok_0.ports.http, endpoint->Ok_0.ports.socks)),
{
    if !core_running {
        return Err(String::from_str("获取代理环境变量失败：Clash 核心未运行"));
    }
    let endpoint = match endpoint {
        Ok(endpoint) => endpoint,
        Err(error) => {
            let mut message = String::from_str("获取代理环境变量失败：");
            message.append(error.as_str());
            return Err(message);
        },
    };
    if endpoint.ports.http.is_none() && endpoint.ports.socks.is_none() {
        return Err(String::from_str("没有可用的代理端口，无法复制代理环境变量"));
    }
    Ok(proxy_env_command(terminal, endpoint.host.as_str(), endpoint.ports.http, endpoint.ports.socks))
}

/// The three check marks of the outbound mode menu: rule, global, direct.
pub fn outbound_mode_checks(mode: &str) -> (r: (bool, bool, bool))
    ensures
        r == (mode@ == "rule"@, mode@ == "global"@, mode@ == "direct"@),
{
    (crate::text::text_eq(mode, "rule"), crate::text::text_eq(mode, "global"), crate::text::text_eq(mode, "direct"))
}

// ---------------------------------------------------------------------------
// Switching the proxies

/// What switching the TUN proxy does: ask for confirmation (turning it on without
/// administrator rights needs a restart with them), or apply the new status and restart
/// the core.
#[derive(Debug, Clone, Copy, PartialEq, Eq, Structural)]
pub enum TunPlan {
    Confirm,
    Apply,
}

/// Switches the TUN proxy to `enabled`: turning it on without administrator rights only
/// asks for confirmation; otherwise the status records the new value and the core
/// restarts.
pub fn set_tun(status: &mut ProxyStatus, enabled: bool, is_admin: bool) -> (r: TunPlan)
    ensures
        (enabled && !is_admin) ==> r == TunPlan::Confirm && *final(status) == *old(status),
        !(enabled && !is_admin) ==> r == TunPlan::Apply && *final(status) == (ProxyStatus { tun: enabled, ..*old(status) }),
{
    if enabled && !is_admin {
        return TunPlan::Confirm;
    }
    status.tun = enabled;
    TunPlan::Apply
}

/// Switches the TUN proxy to the opposite of its status.
pub fn toggle_tun(status: &mut ProxyStatus, is_admin: bool) -> (r: TunPlan)
    ensures
        (!old(status).tun && !is_admin) ==> r == TunPlan::Confirm && *final(status) == *old(status),
        !(!old(status).tun && !is_admin) ==> r == TunPlan::Apply
            && *final(status) == (ProxyStatus { tun: !old(status).tun, ..*old(status) }),
{
    let enabled = !status.tun;
    set_tun(status, enabled, is_admin)
}

/// The confirmed request to turn the TUN proxy on: the status records it before the
/// relaunch with administrator rights (`finish_tun_elevation` takes back a failed one).
pub fn confirm_tun_enable(status: &mut ProxyStatus)
    ensures
        *final(status) == (ProxyStatus { tun: true, ..*old(status) }),
{
    status.tun = true;
}

/// Takes the result of relaunching with administrator rights after turning the TUN proxy
/// on was confirmed (`before` is the status from before the confirmation). When the
/// relaunch started, the status keeps TUN on and this instance quits; when it failed,
/// the status goes back to `before`, so TUN is off again and the system proxy is as it
/// was (to be set again when it was on). Returns whether this instance quits.
pub fn finish_tun_elevation(status: &mut ProxyStatus, before: ProxyStatus, elevated: bool) -> (r: bool)
    ensures
        elevated ==> r && *final(status) == *old(status),
        !elevated ==> !r && *final(status) == before,
{
    if elevated {
        return true;
    }
    *status = before;
    false
}

/// Takes the result of switching the system proxy to `enabled`: the status records the
/// new value only when the platform succeeded; a failure gives the message to log.
pub fn set_system_proxy(status: &mut ProxyStatus, enabled: bool, result: Result<(), String>) -> (r: Option<String>)
    ensures
        match result {
            Ok(()) => r is None && *final(status) == (ProxyStatus { system: enabled, ..*old(status) }),
            Err(e) => r is Some && r->Some_0@ == "设置系统代理失败："@ + e@ && *final(status) == *old(status),
        },
{
    match result {
        Ok(()) => {
            status.system = enabled;
            None
        },
        Err(e) => {
            let mut message = String::from_str("设置系统代理失败：");
            crate::text::push_text(&mut message, e.as_str());
            Some(message)
        },
    }
}

/// The system proxy value a toggle asks for: the opposite of the status.
pub fn toggle_system_proxy(status: &ProxyStatus) -> (r: bool)
    ensures
        r == !status.system,
{
    !status.system
}

/// Takes the result of restoring the system proxy at start: a failure switches the
/// recorded status off and gives the message to log. Nothing is restored when the status
/// is off, so the result is then ignored.
pub fn restore_system_proxy(status: &mut ProxyStatus, result: Result<(), String>) -> (r: Option<String>)
    ensures
        !old(status).system ==> r is None && *final(status) == *old(status),
        old(status).system ==> match result {
            Ok(()) => r is None && *final(status) == *old(status),
            Err(e) => r is Some && r->Some_0@ == "启动时恢复系统代理失败："@ + e@
                && *final(status) == (ProxyStatus { system: false, ..*old(status) }),
        },
{
    if !status.system {
        return None;
    }
    match result {
        Ok(()) => None,
        Err(e) => {
            status.system = false;
            let mut message = String::from_str("启动时恢复系统代理失败：");
            crate::text::push_text(&mut message, e.as_str());
            Some(message)
        },
    }
}

/// Whether the outbound mode can be set: only while the core runs.
pub fn set_mode(core_running: bool) -> (r: Result<(), String>)
    ensures
        core_running ==> r is Ok,
        !core_running ==> r is Err && r->Err_0@ == "设置出站模式失败：Clash 核心未运行"@,
{
    if core_running { Ok(()) } else { Err(String::from_str("设置出站模式失败：Clash 核心未运行")) }
}

} // verus!
