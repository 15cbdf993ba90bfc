use clash_ui::app::config::{ConfigEntry, SourceType};
use clash_ui::clash::api::{
    base_url, bearer, connection_path, group_delay_path, proxy_delay_path, proxy_path, ws_url, LOGS_PATH,
};
use clash_ui::clash::session::{
    config_change_action, core_arguments, has_enabled_config, next_port_candidate, ControllerSnapshot, CoreAction,
};
use clash_ui::controller::home::{panel_step, PanelAction, PanelDirectoryState, PanelEvent, PanelStage};
use clash_ui::platform::system_proxy_port;

fn config(enabled: bool) -> ConfigEntry {
    ConfigEntry {
        name: "a".to_string(),
        enabled,
        source_type: SourceType::File,
        source_uri: "/a.yaml".to_string(),
        path: "configs/a.yaml".to_string(),
    }
}

fn snapshot(port: u16, secret: &str) -> ControllerSnapshot {
    ControllerSnapshot { port, secret: secret.to_string() }
}

#[test]
fn request_paths_encode_names() {
    assert_eq!(base_url(20000), "http://127.0.0.1:20000");
    assert_eq!(ws_url(20000, LOGS_PATH), "ws://127.0.0.1:20000/logs?level=debug&format=structured");
    assert_eq!(bearer("secret"), "Bearer secret");
    assert_eq!(proxy_delay_path("A proxy"), "/proxies/A%20proxy/delay");
    assert_eq!(group_delay_path("节点"), "/group/%E8%8A%82%E7%82%B9/delay");
    assert_eq!(proxy_path("a/b"), "/proxies/a%2Fb");
    assert_eq!(connection_path("c-1"), "/connections/c-1");
}

#[test]
fn core_runs_only_with_an_enabled_configuration() {
    assert!(!has_enabled_config(&[config(false)]));
    assert!(has_enabled_config(&[config(false), config(true)]));
    assert_eq!(config_change_action(&[config(true)], true), CoreAction::Restart);
    assert_eq!(config_change_action(&[config(true)], false), CoreAction::Start);
    assert_eq!(config_change_action(&[config(false)], true), CoreAction::Stop);
    assert_eq!(config_change_action(&[], false), CoreAction::Stop);
}

#[test]
fn core_arguments_name_directory_address_and_secret() {
    assert_eq!(
        core_arguments("/data/runtime", 20001, "abc"),
        vec!["-d", "/data/runtime", "-ext-ctl", "127.0.0.1:20001", "-secret", "abc"]
    );
}

#[test]
fn port_candidates_skip_held_ports() {
    assert_eq!(next_port_candidate(&[], 20000), Some(20000));
    assert_eq!(next_port_candidate(&[20000, 20001, 20003], 20000), Some(20002));
    assert_eq!(next_port_candidate(&[22000], 22000), None);
    assert_eq!(next_port_candidate(&[], 22001), None);
}

#[test]
fn system_proxy_needs_a_port_to_turn_on() {
    assert_eq!(system_proxy_port(true, Some(7890), Some(7891)), Ok(7890));
    assert_eq!(system_proxy_port(true, None, Some(7891)), Ok(7891));
    assert_eq!(system_proxy_port(true, None, None), Err("没有可用的 HTTP 或 SOCKS 代理端口".to_string()));
    assert_eq!(system_proxy_port(false, None, None), Ok(0));
}

#[test]
fn panel_is_downloaded_once_when_missing() {
    let (stage, action) = panel_step(PanelStage::Start, PanelEvent::Begin(true));
    assert_eq!(action, PanelAction::ReadDirectory);
    let (stage, action) = panel_step(stage, PanelEvent::Directory(Ok(PanelDirectoryState::Empty)));
    assert_eq!(action, PanelAction::Upgrade);
    let (stage, action) = panel_step(stage, PanelEvent::Upgraded(Ok(())));
    assert_eq!(action, PanelAction::ReadDirectory);
    let (stage, action) = panel_step(stage, PanelEvent::Directory(Ok(PanelDirectoryState::Ready)));
    assert_eq!(action, PanelAction::ReadSession);
    let (stage, action) = panel_step(stage, PanelEvent::Session(Some(snapshot(20003, "ready"))));
    assert_eq!(stage, PanelStage::Done);
    assert_eq!(
        action,
        PanelAction::Finish(Ok("http://127.0.0.1:20003/ui/#/setup?hostname=127.0.0.1&port=20003&secret=ready".to_string()))
    );
}

#[test]
fn panel_needs_core_and_a_filled_directory() {
    let (_, action) = panel_step(PanelStage::Start, PanelEvent::Begin(false));
    assert_eq!(action, PanelAction::Finish(Err("核心未运行".to_string())));
    let (_, action) = panel_step(PanelStage::Upgrade, PanelEvent::Upgraded(Err("网络失败".to_string())));
    assert_eq!(action, PanelAction::Finish(Err("下载在线面板失败：网络失败".to_string())));
    let (_, action) = panel_step(PanelStage::Recheck, PanelEvent::Directory(Ok(PanelDirectoryState::Empty)));
    assert_eq!(action, PanelAction::Finish(Err("在线面板下载完成但目录仍为空".to_string())));
    let (stage, action) = panel_step(PanelStage::CheckDirectory, PanelEvent::Directory(Ok(PanelDirectoryState::Ready)));
    assert_eq!((stage, action), (PanelStage::ReadSession, PanelAction::ReadSession));
    let (_, action) = panel_step(PanelStage::ReadSession, PanelEvent::Session(None));
    assert_eq!(action, PanelAction::Finish(Err("核心未运行".to_string())));
    let (stage, action) = panel_step(PanelStage::Upgrade, PanelEvent::Begin(true));
    assert_eq!((stage, action), (PanelStage::Upgrade, PanelAction::Upgrade));
}
