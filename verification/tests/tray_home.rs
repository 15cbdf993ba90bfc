use clash_ui::controller::tray::{finish_tun_elevation, set_tun, toggle_tun, confirm_tun_enable, set_system_proxy, toggle_system_proxy, restore_system_proxy, set_mode, TunPlan};
use clash_ui::app::config::{ProxyStatus, AppSettings};
use clash_ui::controller::settings::toggle_silent_start;
use clash_ui::clash::api::Configs;
use clash_ui::clash::session::{generate_secret, ControllerSnapshot};
use clash_ui::controller::home::{fmt_mb, format_uptime, home_proxy_address, mode_label, zashboard_url};
use clash_ui::controller::tray::{
    map_ports, outbound_mode_checks, proxy_address, proxy_endpoint_from_configs, proxy_env_command,
    proxy_env_for_copy, ProxyEndpoint, ProxyPorts, Terminal,
};

#[test]
fn mixed_port_overrides_separate_ports() {
    assert_eq!(
        map_ports(7890, 7891, 7892),
        ProxyPorts {
            mixed: Some(7890),
            http: Some(7890),
            socks: Some(7890)
        }
    );
}

#[test]
fn preserves_empty_separate_ports() {
    assert_eq!(
        map_ports(0, 7891, 0),
        ProxyPorts {
            mixed: None,
            http: Some(7891),
            socks: None
        }
    );
}

#[test]
fn does_not_fill_default_ports_when_empty() {
    assert_eq!(
        map_ports(0, 0, 0),
        ProxyPorts {
            mixed: None,
            http: None,
            socks: None
        }
    );
}

fn api_configs(bind_address: &str) -> Configs {
    Configs {
        mode: String::new(),
        log_level: String::new(),
        allow_lan: false,
        ipv6: false,
        port: 7890,
        socks_port: 7891,
        mixed_port: 0,
        bind_address: bind_address.to_string(),
        tun: None,
    }
}

#[test]
fn proxy_endpoint_uses_api_bind_address() {
    let endpoint = proxy_endpoint_from_configs(&api_configs("192.168.1.20")).unwrap();
    assert_eq!(endpoint.host, "192.168.1.20");
    assert_eq!(endpoint.ports.mixed, None);
    assert_eq!(endpoint.ports.http, Some(7890));
    assert_eq!(endpoint.ports.socks, Some(7891));
}

#[test]
fn api_missing_proxy_address_returns_error() {
    assert!(proxy_endpoint_from_configs(&api_configs(" ")).is_err());
}

#[test]
fn selects_home_address_by_port_source_priority() {
    let endpoint = |ports| ProxyEndpoint {
        host: "192.168.1.20".to_string(),
        ports,
    };
    assert_eq!(
        proxy_address(&endpoint(map_ports(7890, 7891, 7892))),
        Some("http://192.168.1.20:7890".to_string())
    );
    assert_eq!(
        proxy_address(&endpoint(map_ports(0, 7891, 7892))),
        Some("socks5://192.168.1.20:7892".to_string())
    );
    assert_eq!(
        proxy_address(&endpoint(map_ports(0, 7891, 0))),
        Some("http://192.168.1.20:7891".to_string())
    );
    assert_eq!(proxy_address(&endpoint(map_ports(0, 0, 0))), None);
}

#[test]
fn formats_powershell_proxy_command() {
    let s = proxy_env_command(Terminal::PowerShell, "192.168.1.20", Some(7890), Some(7891));
    assert!(s.contains("$env:HTTP_PROXY=\"http://192.168.1.20:7890\""));
    assert!(s.contains("$env:HTTPS_PROXY=\"http://192.168.1.20:7890\""));
    assert!(s.contains("$env:ALL_PROXY=\"socks5://192.168.1.20:7891\""));
}

#[test]
fn formats_cmd_proxy_command() {
    let s = proxy_env_command(Terminal::Cmd, "192.168.1.20", Some(7890), Some(7891));
    assert!(s.contains("set HTTP_PROXY=http://192.168.1.20:7890"));
    assert!(s.contains("set HTTPS_PROXY=http://192.168.1.20:7890"));
    assert!(s.contains("set ALL_PROXY=socks5://192.168.1.20:7891"));
}

#[test]
fn formats_bash_proxy_command() {
    let s = proxy_env_command(Terminal::Bash, "192.168.1.20", Some(7890), Some(7891));
    assert!(s.contains("export HTTP_PROXY=http://192.168.1.20:7890"));
    assert!(s.contains("export HTTPS_PROXY=http://192.168.1.20:7890"));
    assert!(s.contains("export ALL_PROXY=socks5://192.168.1.20:7891"));
}

#[test]
fn formats_single_protocol_commands_without_missing_variables() {
    for terminal in [Terminal::PowerShell, Terminal::Cmd, Terminal::Bash] {
        let http = proxy_env_command(terminal, "host", Some(7890), None);
        assert!(http.contains("HTTP_PROXY"));
        assert!(http.contains("HTTPS_PROXY"));
        assert!(!http.contains("ALL_PROXY"));

        let socks = proxy_env_command(terminal, "host", None, Some(7891));
        assert!(!socks.contains("HTTP_PROXY"));
        assert!(!socks.contains("HTTPS_PROXY"));
        assert!(socks.contains("ALL_PROXY"));
    }
    assert!(proxy_env_command(Terminal::Bash, "host", None, None).is_empty());
}

#[test]
fn bash_command_lines_are_joined_by_newlines() {
    assert_eq!(
        proxy_env_command(Terminal::Bash, "h", Some(1), Some(2)),
        "export HTTP_PROXY=http://h:1\nexport HTTPS_PROXY=http://h:1\nexport ALL_PROXY=socks5://h:2"
    );
}

#[test]
fn copying_needs_running_core_endpoint_and_port() {
    let endpoint = ProxyEndpoint { host: "h".to_string(), ports: map_ports(0, 0, 0) };
    assert_eq!(
        proxy_env_for_copy(false, Ok(endpoint.clone()), Terminal::Bash),
        Err("获取代理环境变量失败：Clash 核心未运行".to_string())
    );
    assert_eq!(
        proxy_env_for_copy(true, Err("离线".to_string()), Terminal::Bash),
        Err("获取代理环境变量失败：离线".to_string())
    );
    assert_eq!(
        proxy_env_for_copy(true, Ok(endpoint), Terminal::Bash),
        Err("没有可用的代理端口，无法复制代理环境变量".to_string())
    );
    let endpoint = ProxyEndpoint { host: "h".to_string(), ports: map_ports(0, 0, 9) };
    assert_eq!(proxy_env_for_copy(true, Ok(endpoint), Terminal::Cmd), Ok("set ALL_PROXY=socks5://h:9".to_string()));
    assert_eq!(outbound_mode_checks("global"), (false, true, false));
}

#[test]
fn homepage_proxy_address_uses_api_bind_address() {
    let endpoint = ProxyEndpoint {
        host: "192.168.1.20".to_string(),
        ports: ProxyPorts {
            mixed: None,
            http: Some(7890),
            socks: Some(7891),
        },
    };
    assert_eq!(
        proxy_address(&endpoint),
        Some("socks5://192.168.1.20:7891".to_string())
    );
}

#[test]
fn zashboard_url_uses_controller_port_and_preserves_query_order() {
    let snapshot = ControllerSnapshot {
        port: 20001,
        secret: "s3cr3t".to_string(),
    };
    assert_eq!(
        zashboard_url(&snapshot),
        "http://127.0.0.1:20001/ui/#/setup?hostname=127.0.0.1&port=20001&secret=s3cr3t"
    );
}

#[test]
fn home_figures_are_formatted() {
    assert_eq!(fmt_mb(5 * 1024 * 1024 + 1), "5 MB");
    assert_eq!(fmt_mb(0), "0 MB");
    assert_eq!(format_uptime(3 * 3600 + 7 * 60 + 5), "3:07:05");
    assert_eq!(format_uptime(59), "0:00:59");
    assert_eq!(format_uptime(100 * 3600), "100:00:00");
    assert_eq!(home_proxy_address(&None), "—");
    assert_eq!(mode_label("rule"), "规则模式");
    assert_eq!(mode_label("global"), "全局模式");
    assert_eq!(mode_label("direct"), "直连模式");
    assert_eq!(mode_label("other"), "—");
}

#[test]
fn secret_has_expected_length() {
    let first = generate_secret();
    let second = generate_secret();
    assert_eq!(first.len(), 16);
    assert!(first.chars().all(|c| c.is_ascii_alphanumeric()));
    assert_ne!(first, second);
}

#[test]
fn tun_switch_asks_confirmation_without_admin_rights() {
    let mut status = ProxyStatus { system: false, tun: false };
    assert_eq!(set_tun(&mut status, true, false), TunPlan::Confirm);
    assert!(!status.tun);
    assert_eq!(toggle_tun(&mut status, true), TunPlan::Apply);
    assert!(status.tun);
    assert_eq!(set_tun(&mut status, false, false), TunPlan::Apply);
    assert!(!status.tun);
    confirm_tun_enable(&mut status);
    assert!(status.tun);
}

#[test]
fn system_proxy_status_follows_platform_results() {
    let mut status = ProxyStatus { system: false, tun: false };
    assert!(toggle_system_proxy(&status));
    assert_eq!(set_system_proxy(&mut status, true, Err("denied".to_string())), Some("设置系统代理失败：denied".to_string()));
    assert!(!status.system);
    assert_eq!(set_system_proxy(&mut status, true, Ok(())), None);
    assert!(status.system);
    assert_eq!(
        restore_system_proxy(&mut status, Err("gone".to_string())),
        Some("启动时恢复系统代理失败：gone".to_string())
    );
    assert!(!status.system);
    assert_eq!(restore_system_proxy(&mut status, Err("ignored".to_string())), None);
    assert_eq!(set_mode(false), Err("设置出站模式失败：Clash 核心未运行".to_string()));
    assert_eq!(set_mode(true), Ok(()));
}

#[test]
fn silent_start_is_saved_only_when_changed() {
    let mut app = AppSettings::default();
    assert!(toggle_silent_start(&mut app, true));
    assert!(app.silent_start);
    assert!(!toggle_silent_start(&mut app, true));
}

#[test]
fn failed_elevation_rolls_tun_back() {
    let before = ProxyStatus { system: true, tun: false };
    let mut status = before;
    confirm_tun_enable(&mut status);
    assert!(status.tun);
    assert!(!finish_tun_elevation(&mut status, before, false));
    assert_eq!(status, before);
    confirm_tun_enable(&mut status);
    assert!(finish_tun_elevation(&mut status, before, true));
    assert!(status.tun && status.system);
}
