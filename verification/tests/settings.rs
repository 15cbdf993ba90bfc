use clash_ui::controller::settings::{save_list_step, finish_bypass_save, ListSave};
use clash_ui::controller::settings::{check_ports, apply_ports, ports_unchanged, check_tun_device, parse_tun_mtu, add_list_item, edit_list_item, remove_list_item, toggle_uwp_draft};
use clash_ui::app::config::{default_proxy_bypass_list, default_route_exclude_address, ClashSettings, LogLevel, TunStack};
use clash_ui::controller::address::{is_valid_bypass_entry, is_valid_ip_cidr};
use clash_ui::controller::settings::{
    default_list, enabled_uwp_packages, list_summary, log_level_from_index, log_level_index,
    normalize_list, parse_optional_port, ports_summary, tun_stack_from_index, tun_stack_index,
    uwp_changes, validate_list, validate_list_for,
};
use clash_ui::controller::settings::{prepare_list, list_unchanged, store_list, uwp_rows, UwpRow, effective_dark};
use clash_ui::controller::settings::{new_state, change_core_setting, CoreChange, begin_apply_core, finish_apply_core, begin_auto_start, finish_auto_start, begin_load_uwp, finish_load_uwp, begin_save_uwp, finish_save_uwp, UwpSaveStart, reset_uwp_draft, Toast, settings_view, refresh};
use clash_ui::app::config::AppConfig;
use clash_ui::app::config::ThemeMode;
use clash_ui::app::config::Settings;
use clash_ui::platform::UwpApp;

#[test]
fn parses_port_boundaries() {
    assert_eq!(parse_optional_port(""), Ok(None));
    assert_eq!(parse_optional_port("1"), Ok(Some(1)));
    assert_eq!(parse_optional_port("65535"), Ok(Some(65535)));
    assert!(parse_optional_port("0").is_err());
    assert!(parse_optional_port("65536").is_err());
    assert!(parse_optional_port("abc").is_err());
}

#[test]
fn renders_port_summaries() {
    let mut clash = ClashSettings::default();
    clash.mixed_port = Some(7890);
    assert_eq!(ports_summary(&clash), "混合端口 7890");

    clash.mixed_port = None;
    clash.port = Some(7891);
    clash.socks_port = Some(7892);
    assert_eq!(ports_summary(&clash), "HTTP 7891 · SOCKS 7892");

    clash.socks_port = None;
    assert_eq!(ports_summary(&clash), "HTTP 7891");
}

#[test]
fn renders_list_summaries() {
    assert_eq!(list_summary(&[]), "暂无");
    assert_eq!(
        list_summary(&["10.0.0.0/8".to_string(), "192.168.0.0/16".to_string()]),
        "10.0.0.0/8、192.168.0.0/16"
    );
}

#[test]
fn normalizes_lists_by_trim_dedup_and_order() {
    assert_eq!(
        normalize_list(" a\n\nb, a; b "),
        vec!["a".to_string(), "b".to_string()]
    );
}

#[test]
fn validates_ip_cidr_boundaries() {
    assert!(is_valid_ip_cidr("10.0.0.0/8"));
    assert!(is_valid_ip_cidr("2001:db8::/32"));
    assert!(is_valid_ip_cidr("0.0.0.0/0"));
    assert!(is_valid_ip_cidr("::/0"));
    assert!(!is_valid_ip_cidr("10.0.0.1"));
    assert!(!is_valid_ip_cidr("10.0.0.0/33"));
    assert!(!is_valid_ip_cidr("2001:db8::/129"));
    assert!(!is_valid_ip_cidr("not-an-ip/24"));
}

#[test]
fn validates_platform_bypass_entries() {
    assert!(is_valid_bypass_entry("localhost", true));
    assert!(is_valid_bypass_entry("127.*", true));
    assert!(is_valid_bypass_entry("2001:db8::1", true));
    assert!(!is_valid_bypass_entry("192.168.0.0/16", true));

    assert!(is_valid_bypass_entry("127.0.0.1/8", false));
    assert!(is_valid_bypass_entry("2001:db8::/32", false));
    assert!(is_valid_bypass_entry("*.example.com", false));
    assert!(is_valid_bypass_entry("<local>", false));
    assert!(!is_valid_bypass_entry("bad;entry", false));
    assert!(!is_valid_bypass_entry("bad entry", false));
}

#[test]
fn validates_only_supported_list_kinds() {
    assert!(validate_list(0, &["10.0.0.0/8".to_string()]).is_ok());
    assert!(validate_list(0, &["10.0.0.1".to_string()]).is_err());
    assert!(validate_list(1, &["任意接口名".to_string()]).is_ok());
}

#[test]
fn default_lists_are_available_for_reset() {
    assert_eq!(default_list(0), Some(default_route_exclude_address()));
    assert_eq!(default_list(2), Some(default_proxy_bypass_list()));
    assert_eq!(default_list(1), None);
}

#[test]
fn computes_only_changed_uwp_entries() {
    let current = vec!["old-a".to_string(), "keep".to_string()];
    let desired = vec!["keep".to_string(), "new-b".to_string()];
    assert_eq!(
        uwp_changes(&current, &desired),
        vec![("old-a".to_string(), false), ("new-b".to_string(), true)]
    );
    assert!(uwp_changes(&current, &current).is_empty());
}

#[test]
fn derives_uwp_current_state_from_system_flags() {
    let apps = vec![
        UwpApp {
            name: "关闭".to_string(),
            package_family_name: "disabled_abc".to_string(),
            enabled: false,
        },
        UwpApp {
            name: "启用".to_string(),
            package_family_name: "enabled_abc".to_string(),
            enabled: true,
        },
    ];
    assert_eq!(enabled_uwp_packages(&apps), vec!["enabled_abc".to_string()]);
}

#[test]
fn maps_enum_indices() {
    assert_eq!(
        log_level_from_index(log_level_index(LogLevel::Debug)),
        Some(LogLevel::Debug)
    );
    assert_eq!(
        tun_stack_from_index(tun_stack_index(TunStack::Gvisor)),
        Some(TunStack::Gvisor)
    );
    assert!(log_level_from_index(-1).is_none());
}

#[test]
fn port_field_accepts_plus_and_spaces() {
    assert_eq!(parse_optional_port("  +80 "), Ok(Some(80)));
    assert_eq!(parse_optional_port("   "), Ok(None));
    assert_eq!(parse_optional_port("+"), Err("端口必须是 1 到 65535 的整数".to_string()));
    assert_eq!(parse_optional_port("99999999999"), Err("端口必须是 1 到 65535 的整数".to_string()));
    assert_eq!(parse_optional_port("-1"), Err("端口必须是 1 到 65535 的整数".to_string()));
}

#[test]
fn list_errors_name_position_and_item() {
    assert_eq!(
        validate_list(0, &["10.0.0.0/8".to_string(), "bad".to_string()]),
        Err("排除网段第 2 项不是有效的 IP CIDR：bad".to_string())
    );
    assert_eq!(
        validate_list(2, &["ok.example".to_string(), "bad entry".to_string()]),
        Err("跳过代理第 2 项不是有效的 Linux/macOS bypass 格式：bad entry".to_string())
    );
    assert_eq!(
        validate_list_for(2, &["10.0.0.0/8".to_string()], true),
        Err("跳过代理第 1 项不是有效的 Windows bypass 格式：10.0.0.0/8".to_string())
    );
}

#[test]
fn addresses_follow_standard_parsing() {
    assert!(is_valid_ip_cidr("::ffff:1.2.3.4/128"));
    assert!(is_valid_ip_cidr("1:2:3:4:5:6:1.2.3.4/64"));
    assert!(!is_valid_ip_cidr("1:2:3:4:5:6:7:1.2.3.4/64"));
    assert!(is_valid_ip_cidr("fe80::1/+10"));
    assert!(is_valid_ip_cidr("10.0.0.0/008"));
    assert!(!is_valid_ip_cidr("010.0.0.0/8"));
    assert!(!is_valid_ip_cidr("256.0.0.0/8"));
    assert!(!is_valid_ip_cidr("1::2::3/8"));
    assert!(!is_valid_ip_cidr("10.0.0.0/8/8"));
    assert!(!is_valid_ip_cidr("/8"));
    assert!(is_valid_bypass_entry("1:2:3:4:5:6:7:8", false));
    assert!(!is_valid_bypass_entry("-bad.example", false));
    assert!(!is_valid_bypass_entry("a..b", false));
    assert!(!is_valid_bypass_entry(&"a".repeat(64), false));
    assert!(is_valid_bypass_entry(&"a".repeat(63), false));
}

#[test]
fn port_form_checks_fields_then_combinations() {
    assert_eq!(check_ports("7890", "", ""), Ok((Some(7890), None, None)));
    assert_eq!(check_ports("", "8080", "1080"), Ok((None, Some(8080), Some(1080))));
    assert_eq!(check_ports("x", "", ""), Err("端口必须是 1 到 65535 的整数".to_string()));
    assert_eq!(check_ports("", "", ""), Err("三个端口不可全部为空".to_string()));
    assert_eq!(check_ports("", "8080", "8080"), Err("HTTP 与 SOCKS 端口不可相同".to_string()));
    assert_eq!(check_ports("7890", "8080", "8080"), Ok((Some(7890), Some(8080), Some(8080))));
}

#[test]
fn mixed_port_replaces_separate_ports() {
    let mut clash = ClashSettings::default();
    assert!(ports_unchanged(&clash, None, Some(7890), None));
    assert!(!ports_unchanged(&clash, Some(7890), None, None));
    apply_ports(&mut clash, Some(7891), Some(1), Some(2));
    assert_eq!((clash.mixed_port, clash.port, clash.socks_port), (Some(7891), None, None));
    assert!(ports_unchanged(&clash, Some(7891), Some(5), None));
    apply_ports(&mut clash, None, Some(8080), Some(1080));
    assert_eq!((clash.mixed_port, clash.port, clash.socks_port), (None, Some(8080), Some(1080)));
}

#[test]
fn tun_fields_are_checked() {
    assert_eq!(parse_tun_mtu(" 1500 "), Ok(1500));
    assert_eq!(parse_tun_mtu("+9000"), Ok(9000));
    assert_eq!(parse_tun_mtu("0"), Err("MTU 必须是正整数".to_string()));
    assert_eq!(parse_tun_mtu("4294967296"), Err("MTU 必须是正整数".to_string()));
    assert_eq!(parse_tun_mtu("-1"), Err("MTU 必须是正整数".to_string()));
    assert!(check_tun_device("utun-").is_err());
    assert!(check_tun_device("").is_err());
    assert!(check_tun_device("Meta").is_ok());
}

#[test]
fn list_editor_edits_adds_and_removes_items() {
    let mut items = vec!["a".to_string(), "b".to_string()];
    assert!(add_list_item(&mut items, "  c  "));
    assert!(!add_list_item(&mut items, "   "));
    assert_eq!(items, vec!["a", "b", "c"]);
    assert!(edit_list_item(&mut items, 1, "B".to_string()));
    assert!(!edit_list_item(&mut items, -1, "x".to_string()));
    assert!(!edit_list_item(&mut items, 3, "x".to_string()));
    assert!(remove_list_item(&mut items, 0));
    assert!(!remove_list_item(&mut items, 2));
    assert_eq!(items, vec!["B", "c"]);
}

#[test]
fn uwp_draft_switches_only_listed_apps() {
    let apps = vec![UwpApp { name: "Store".to_string(), package_family_name: "store_1".to_string(), enabled: false }];
    let mut draft: Vec<String> = Vec::new();
    assert!(toggle_uwp_draft(&mut draft, &apps, false, "store_1", true));
    assert!(toggle_uwp_draft(&mut draft, &apps, false, "store_1", true));
    assert_eq!(draft, vec!["store_1"]);
    assert!(!toggle_uwp_draft(&mut draft, &apps, true, "store_1", false));
    assert!(!toggle_uwp_draft(&mut draft, &apps, false, "other", true));
    assert!(!toggle_uwp_draft(&mut draft, &apps, false, "  ", true));
    assert!(toggle_uwp_draft(&mut draft, &apps, false, "store_1", false));
    assert!(draft.is_empty());
}

#[test]
fn list_dialog_text_is_normalized_then_checked() {
    assert_eq!(
        prepare_list(0, " 10.0.0.0/8;\n10.0.0.0/8, 192.168.0.0/16 ", false),
        Ok(vec!["10.0.0.0/8".to_string(), "192.168.0.0/16".to_string()])
    );
    assert_eq!(
        prepare_list(0, "10.0.0.0/8\nbad", false),
        Err("排除网段第 2 项不是有效的 IP CIDR：bad".to_string())
    );
    assert_eq!(prepare_list(1, "eth0, ,eth0", false), Ok(vec!["eth0".to_string()]));
}

#[test]
fn list_dialog_stores_and_compares_by_kind() {
    let mut settings = Settings::default();
    let values = vec!["a.example".to_string()];
    assert!(!list_unchanged(&settings, 2, &values));
    assert!(store_list(&mut settings, 2, values.clone()));
    assert!(list_unchanged(&settings, 2, &values));
    assert_eq!(settings.proxy.bypass_list, values);
    assert!(store_list(&mut settings, 1, vec!["eth0".to_string()]));
    assert_eq!(settings.clash.tun.exclude_interface, vec!["eth0".to_string()]);
    assert!(!store_list(&mut settings, 7, vec![]));
    assert!(!list_unchanged(&settings, 7, &vec![]));
    assert!(list_unchanged(&settings, 0, &default_route_exclude_address()));
}

#[test]
fn uwp_rows_follow_search_and_draft() {
    let apps = vec![
        UwpApp { name: "Mail".to_string(), package_family_name: "Microsoft.Mail_8wekyb".to_string(), enabled: false },
        UwpApp { name: "Store".to_string(), package_family_name: "Microsoft.Store_abc".to_string(), enabled: true },
        UwpApp { name: "Photos".to_string(), package_family_name: "Other.Photos_x".to_string(), enabled: false },
    ];
    let draft = vec!["Microsoft.Store_abc".to_string()];
    let rows = uwp_rows(&apps, &draft, "MICROSOFT");
    assert_eq!(
        rows,
        vec![
            UwpRow { name: "Mail".to_string(), package_family_name: "Microsoft.Mail_8wekyb".to_string(), enabled: false },
            UwpRow { name: "Store".to_string(), package_family_name: "Microsoft.Store_abc".to_string(), enabled: true },
        ]
    );
    assert_eq!(uwp_rows(&apps, &draft, "").len(), 3);
    assert_eq!(uwp_rows(&apps, &draft, "phot")[0].name, "Photos");
    assert!(uwp_rows(&apps, &draft, "zzz").is_empty());
}

#[test]
fn theme_decides_dark_drawing() {
    assert!(effective_dark(ThemeMode::Dark, false));
    assert!(!effective_dark(ThemeMode::Light, true));
    assert!(effective_dark(ThemeMode::System, true));
    assert!(!effective_dark(ThemeMode::System, false));
}

#[test]
fn core_settings_change_only_when_needed_and_not_applying() {
    let mut state = new_state();
    let mut clash = ClashSettings::default();
    let ipv6 = clash.ipv6;
    assert!(!change_core_setting(&mut state, &mut clash, CoreChange::Ipv6(ipv6)));
    assert!(!state.core_dirty);
    assert!(change_core_setting(&mut state, &mut clash, CoreChange::AllowLan(true)));
    assert!(clash.allow_lan && state.core_dirty);
    assert!(change_core_setting(&mut state, &mut clash, CoreChange::Ports(Some(7890), None, None)));
    assert_eq!((clash.mixed_port, clash.port, clash.socks_port), (Some(7890), None, None));
    assert!(change_core_setting(&mut state, &mut clash, CoreChange::TunMtu(1500)));
    assert_eq!(clash.tun.mtu, 1500);
    assert!(begin_apply_core(&mut state));
    assert!(!begin_apply_core(&mut state));
    assert!(!change_core_setting(&mut state, &mut clash, CoreChange::BindAddress("0.0.0.0".to_string())));
    assert_eq!(
        finish_apply_core(&mut state, Err("boom".to_string())),
        Toast { message: "应用配置失败：boom".to_string(), variant: 2 }
    );
    assert!(state.core_dirty && !state.applying_core);
    assert!(begin_apply_core(&mut state));
    assert_eq!(finish_apply_core(&mut state, Ok(())), Toast { message: "配置已应用".to_string(), variant: 1 });
    assert!(!state.core_dirty);
    assert!(!begin_apply_core(&mut state));
}

#[test]
fn auto_start_switch_is_saved_only_on_success() {
    let mut state = new_state();
    let token = begin_auto_start(&mut state).unwrap();
    assert!(state.operation_busy);
    assert_eq!(begin_auto_start(&mut state), None);
    assert_eq!(finish_auto_start(&mut state, token + 1, true, false, Ok(())), None);
    assert!(state.operation_busy);
    let failed = finish_auto_start(&mut state, token, true, false, Err("denied".to_string())).unwrap();
    assert!(!failed.shown && !failed.save);
    assert_eq!(failed.toast.message, "开机自启设置失败：denied");
    assert!(!state.operation_busy);
    let token = begin_auto_start(&mut state).unwrap();
    let done = finish_auto_start(&mut state, token, true, false, Ok(())).unwrap();
    assert!(done.shown && done.save);
    assert_eq!(done.toast, Toast { message: "开机自启设置已更新".to_string(), variant: 1 });
}

#[test]
fn uwp_dialog_loads_and_saves_with_tokens() {
    let mut state = new_state();
    let apps = vec![
        UwpApp { name: "A".to_string(), package_family_name: "a".to_string(), enabled: true },
        UwpApp { name: "B".to_string(), package_family_name: "b".to_string(), enabled: false },
    ];
    let stale = begin_load_uwp(&mut state);
    let token = begin_load_uwp(&mut state);
    assert_eq!(finish_load_uwp(&mut state, stale, Ok(vec![])), None);
    assert!(state.uwp_apps.is_empty());
    assert_eq!(finish_load_uwp(&mut state, token, Ok(apps.clone())), None);
    assert_eq!(state.uwp_draft, vec!["a".to_string()]);
    assert!(matches!(begin_save_uwp(&mut state), UwpSaveStart::NothingToChange));
    state.uwp_draft = vec!["b".to_string()];
    let UwpSaveStart::Started { token, current, desired, changes } = begin_save_uwp(&mut state) else {
        panic!("expected a started save");
    };
    assert_eq!(changes, vec![("a".to_string(), false), ("b".to_string(), true)]);
    assert!(matches!(begin_save_uwp(&mut state), UwpSaveStart::Busy));
    let outcome = finish_save_uwp(&mut state, token, current, desired, Err("no".to_string())).unwrap();
    assert!(!outcome.close_dialog);
    assert_eq!(outcome.toast.message, "UWP 回环设置失败：no");
    assert_eq!(state.uwp_draft, vec!["a".to_string()]);
    assert!(!state.operation_busy);
    state.uwp_draft = vec![];
    reset_uwp_draft(&mut state);
    assert_eq!(state.uwp_draft, vec!["a".to_string()]);
    let token = begin_load_uwp(&mut state);
    assert_eq!(finish_load_uwp(&mut state, token, Err("x".to_string())), Some("加载 UWP 列表失败：x".to_string()));
}

#[test]
fn settings_view_shows_configuration_and_page_state() {
    let mut cfg = AppConfig::default();
    cfg.settings.clash.mixed_port = Some(7890);
    cfg.settings.clash.tun.mtu = 1500;
    let mut state = new_state();
    state.core_dirty = true;
    let view = settings_view(&cfg, &state);
    assert_eq!(view.ports_summary, "混合端口 7890");
    assert_eq!(view.tun_mtu, "1500");
    assert_eq!(view.theme_index, 0);
    assert_eq!(view.tun_exclude_interface_summary, "暂无");
    assert!(view.core_dirty && !view.applying_core);
    assert_eq!(view.bind_address, cfg.settings.clash.bind_address);
}

#[test]
fn refreshing_settings_resets_draft_and_asks_for_apps() {
    let mut state = new_state();
    assert!(refresh(&mut state, true));
    assert!(!refresh(&mut state, false));
    state.uwp_apps = vec![UwpApp { name: "A".to_string(), package_family_name: "a".to_string(), enabled: true }];
    state.uwp_draft = vec![];
    assert!(!refresh(&mut state, true));
    assert_eq!(state.uwp_draft, vec!["a".to_string()]);
    state.operation_busy = true;
    state.uwp_draft = vec![];
    refresh(&mut state, true);
    assert!(state.uwp_draft.is_empty());
}

#[test]
fn saving_lists_follows_the_kind_and_the_core_state() {
    let mut settings = Settings::default();
    let mut state = new_state();
    let same = settings.clash.tun.route_exclude_address.clone();
    assert_eq!(save_list_step(&mut state, &mut settings, 0, same), ListSave::Unchanged);
    assert!(!state.core_dirty);

    state.applying_core = true;
    let wanted = vec!["10.0.0.0/8".to_string()];
    assert_eq!(save_list_step(&mut state, &mut settings, 0, wanted.clone()), ListSave::CoreBusy);
    assert!(!state.core_dirty);
    assert_ne!(settings.clash.tun.route_exclude_address, wanted);

    state.applying_core = false;
    assert_eq!(save_list_step(&mut state, &mut settings, 0, wanted.clone()), ListSave::CoreListStored);
    assert!(state.core_dirty);
    assert_eq!(settings.clash.tun.route_exclude_address, wanted);

    assert_eq!(save_list_step(&mut state, &mut settings, 1, vec!["eth0".to_string()]), ListSave::CoreListStored);
    assert_eq!(settings.clash.tun.exclude_interface, vec!["eth0".to_string()]);

    let bypass = vec!["example.com".to_string()];
    let stored = save_list_step(&mut state, &mut settings, 2, bypass.clone());
    assert_eq!(stored, ListSave::BypassStored(1));
    assert!(state.operation_busy);
    assert_eq!(settings.proxy.bypass_list, bypass);
    assert_eq!(save_list_step(&mut state, &mut settings, 3, bypass.clone()), ListSave::NoList);

    assert_eq!(finish_bypass_save(&mut state, 0, Ok(())), None);
    assert!(state.operation_busy);
    let toast = finish_bypass_save(&mut state, 1, Err("拒绝访问".to_string())).unwrap();
    assert_eq!(toast, Toast { message: "跳过代理已保存，但平台刷新失败：拒绝访问".to_string(), variant: 2 });
    assert!(!state.operation_busy);
    assert_eq!(
        finish_bypass_save(&mut state, 1, Ok(())),
        Some(Toast { message: "跳过代理已保存".to_string(), variant: 1 })
    );
}
