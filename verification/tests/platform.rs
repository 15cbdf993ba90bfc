use clash_ui::platform::windows::{uwp_batch_route, UwpBatchRoute};
use clash_ui::platform::{listening_ports, SocketState};
use clash_ui::platform::windows::{container_listing_step, ContainerListing};
use clash_ui::platform::windows::unique_containers;
use clash_ui::platform::windows::{
    apply_uwp_changes, elevated_uwp_launch_error, format_network_isolation_error,
    format_uwp_result, parse_uwp_result, resolve_uwp_display_name_with, uwp_apps_from_containers,
    uwp_batch_needs_system, AppContainer, LoopbackSid, ERROR_ACCESS_DENIED,
};
use clash_ui::platform::{linux, macos, windows};

fn test_app_container(name: &str, package_family_name: &str) -> AppContainer {
    AppContainer {
        name: name.to_string(),
        package_family_name: package_family_name.to_string(),
        sid: Vec::new(),
    }
}

#[test]
fn linux_normalizes_tun_device_whitespace() {
    assert_eq!(linux::normalize_tun_device("  clash  "), "clash");
}

#[test]
fn adds_utun_prefix_to_tun_device() {
    assert_eq!(macos::normalize_tun_device("clash"), "utun-clash");
    assert_eq!(macos::normalize_tun_device(" utun-clash "), "utun-clash");
}

#[test]
fn tests_normalizes_tun_device_whitespace() {
    assert_eq!(windows::normalize_tun_device("  clash  "), "clash");
}

#[test]
fn sorts_native_uwp_apps_and_resolves_resource_name() {
    assert_eq!(
        resolve_uwp_display_name_with(Some("@{Package.ResourceName}"), "Fallback_abc", "Package_full", |_| None),
        "Fallback_abc"
    );
    assert_eq!(
        resolve_uwp_display_name_with(Some("  Calculator  "), "Fallback_abc", "Package_full", |_| None),
        "Calculator"
    );
    let apps = uwp_apps_from_containers(
        vec![
            test_app_container("zeta", "Zeta_abc"),
            test_app_container("Alpha", "Alpha_abc"),
            test_app_container("alpha", "Alpha_def"),
        ],
        &[],
    );
    assert_eq!(apps.len(), 3);
    assert_eq!(
        apps.iter()
            .map(|app| app.package_family_name.as_str())
            .collect::<Vec<_>>(),
        vec!["Alpha_abc", "Alpha_def", "Zeta_abc"]
    );
}

#[test]
fn maps_current_loopback_sids_to_enabled_apps() {
    let enabled_sid = vec![1, 2, 3, 4, 5, 6, 7, 8];
    let mut enabled = test_app_container("Enabled", "Enabled_abc");
    enabled.sid = enabled_sid.clone();
    let mut disabled = test_app_container("Disabled", "Disabled_abc");
    disabled.sid = vec![8, 7, 6, 5, 4, 3, 2, 1];

    let apps = uwp_apps_from_containers(
        vec![enabled, disabled],
        &[LoopbackSid {
            bytes: enabled_sid,
            attributes: 0,
        }],
    );
    assert_eq!(
        apps.iter()
            .map(|app| (app.package_family_name.as_str(), app.enabled))
            .collect::<Vec<_>>(),
        vec![("Disabled_abc", false), ("Enabled_abc", true)]
    );
}

#[test]
fn resolves_localized_uwp_resource_before_fallback() {
    assert_eq!(
        resolve_uwp_display_name_with(
            Some("@{Package.ResourceName}"),
            "Fallback_abc",
            "Package_full",
            |resource| {
                assert_eq!(resource, "@{Package.ResourceName}");
                Some("计算器".to_string())
            },
        ),
        "计算器"
    );
    assert_eq!(
        resolve_uwp_display_name_with(
            Some("@{Package.ResourceName}"),
            "Fallback_abc",
            "Package_full",
            |_| None,
        ),
        "Fallback_abc"
    );
    assert_eq!(
        resolve_uwp_display_name_with(
            Some("ms-resource:///Resources/AppName"),
            "Fallback_abc",
            "Package_full",
            |resource| {
                assert_eq!(resource, "@{Package_full?ms-resource:///Resources/AppName}");
                Some("本地化应用".to_string())
            },
        ),
        "本地化应用"
    );
}

#[test]
fn serializes_uwp_changes_and_uses_real_elevated_result() {
    assert_eq!(parse_uwp_result("ok\n"), Ok(()));
    assert_eq!(
        parse_uwp_result("error\n拒绝访问"),
        Err("拒绝访问".to_string())
    );
    assert!(parse_uwp_result("42").is_err());
    assert_eq!(elevated_uwp_launch_error(Some(42)), None);
    assert!(elevated_uwp_launch_error(Some(5))
        .unwrap()
        .contains("启动返回码 5"));
}

#[test]
fn applies_uwp_changes_and_preserves_unknown_sids() {
    let target_sid = vec![1, 2, 3, 4, 5, 6, 7, 8];
    let unknown_sid = LoopbackSid {
        bytes: vec![9, 8, 7, 6, 5, 4, 3, 2],
        attributes: 23,
    };
    let target = LoopbackSid {
        bytes: target_sid.clone(),
        attributes: 11,
    };
    let mut container = test_app_container("Known", "Known_abc");
    container.sid = target_sid;
    let containers = vec![container];

    let enabled = apply_uwp_changes(
        &[unknown_sid.clone(), target.clone(), unknown_sid.clone()],
        &containers,
        &[("Known_abc".to_string(), true)],
    )
    .unwrap();
    assert_eq!(enabled, vec![unknown_sid.clone(), target.clone()]);

    let disabled =
        apply_uwp_changes(&enabled, &containers, &[("Known_abc".to_string(), false)]).unwrap();
    assert_eq!(disabled, vec![unknown_sid]);
}

#[test]
fn rejects_unknown_or_empty_uwp_package() {
    let mut container = test_app_container("Known", "Known_abc");
    container.sid = vec![1, 2, 3, 4, 5, 6, 7, 8];
    let containers = [container];
    assert!(
        apply_uwp_changes(&[], &containers, &[("Missing_abc".to_string(), true)])
            .unwrap_err()
            .contains("Missing_abc")
    );
    assert!(
        apply_uwp_changes(&[], &containers, &[("  ".to_string(), true)])
            .unwrap_err()
            .contains("不能为空")
    );
}

#[test]
fn formats_network_isolation_error_with_win32_code() {
    let error = format_network_isolation_error(
        "NetworkIsolationSetAppContainerConfig",
        ERROR_ACCESS_DENIED,
    );
    assert!(error.contains("0x00000005"));
    assert!(error.contains("权限不足"));
}

#[test]
fn empty_uwp_changes_do_not_require_system_snapshot() {
    assert!(!uwp_batch_needs_system(&[]));
    assert!(uwp_batch_needs_system(&[("a".to_string(), true)]));
}

#[test]
fn helper_result_text_round_trips() {
    let ok: Result<(), String> = Ok(());
    assert_eq!(parse_uwp_result(&format_uwp_result(&ok)), Ok(()));
    let err: Result<(), String> = Err("拒绝访问".to_string());
    assert_eq!(parse_uwp_result(&format_uwp_result(&err)), err);
    assert_eq!(parse_uwp_result("error\n  \r\n"), Err("提权 UWP helper 返回未知错误".to_string()));
    assert_eq!(parse_uwp_result("oops"), Err("提权 UWP helper 返回格式无效".to_string()));
    assert_eq!(elevated_uwp_launch_error(Some(1223)), Some("用户取消了 UWP 管理员权限请求".to_string()));
    assert_eq!(elevated_uwp_launch_error(Some(-3)), Some("请求 UWP 管理员权限失败，启动返回码 -3".to_string()));
    assert_eq!(elevated_uwp_launch_error(None), None);
}

#[test]
fn isolation_errors_explain_codes() {
    let error = format_network_isolation_error("Api", 0x8007_0057);
    assert!(error.starts_with("Api 失败，错误码 0x80070057（参数无效："));
    let error = format_network_isolation_error("Api", 0x1234_5678);
    assert_eq!(error, "Api 失败，错误码 0x12345678（未知错误：无法解析系统错误文本）");
}

#[test]
fn bypass_lists_join_trimmed_items() {
    let items = vec![" localhost ".to_string(), "".to_string(), "10.0.0.0/8".to_string()];
    assert_eq!(linux::proxy_bypass_string(&items), "localhost,10.0.0.0/8");
    assert_eq!(macos::proxy_bypass_string(&items), "localhost,10.0.0.0/8");
    assert!(!linux::supports_uwp());
    assert!(windows::supports_uwp());
    assert_eq!(linux::list_uwp_apps(), Err("当前平台不支持 UWP 设置".to_string()));
    assert!(macos::set_uwp_loopback("a", true).is_err());
    assert!(linux::set_uwp_loopback_batch(&[]).is_err());
}

#[test]
fn helper_arguments_round_trip_through_hexadecimal() {
    assert_eq!(windows::encode_uwp_argument("ab"), "6162");
    assert_eq!(windows::decode_uwp_argument("6162"), Ok("ab".to_string()));
    let encoded = windows::encode_uwp_argument("C:\\临时\\结果.result");
    assert_eq!(windows::decode_uwp_argument(&encoded), Ok("C:\\临时\\结果.result".to_string()));
    assert_eq!(windows::decode_uwp_argument("4A4b"), Ok("JK".to_string()));
    assert_eq!(windows::decode_uwp_argument("+1"), Ok("\u{1}".to_string()));
    assert_eq!(windows::decode_uwp_argument("616"), Err("提权 UWP 参数长度无效".to_string()));
    assert_eq!(windows::decode_uwp_argument("é1"), Err("提权 UWP 参数长度无效".to_string()));
    assert_eq!(windows::decode_uwp_argument("zz"), Err("提权 UWP 参数不是有效十六进制".to_string()));
    assert_eq!(windows::decode_uwp_argument("ff"), Err("提权 UWP 参数不是有效 UTF-8".to_string()));
}

#[test]
fn helper_payload_reads_back_the_changes() {
    let changes = vec![("Alpha_abc".to_string(), true), ("Beta_def".to_string(), false)];
    let payload = windows::serialize_uwp_changes(&changes).unwrap();
    assert_eq!(payload, "[[\"Alpha_abc\",true],[\"Beta_def\",false]]");
    assert_eq!(windows::deserialize_uwp_changes(&payload).unwrap(), changes);
    assert!(windows::deserialize_uwp_changes("not json").unwrap_err().starts_with("解析提权 UWP 变更失败："));
}

#[test]
fn containers_keep_the_first_of_each_package_family() {
    let c = |name: &str, family: &str, sid: u8| AppContainer {
        name: name.to_string(),
        package_family_name: family.to_string(),
        sid: vec![sid],
    };
    let unique = unique_containers(vec![c("A", "fa", 1), c("B", "fb", 2), c("A2", "fa", 3)]);
    assert_eq!(unique, vec![c("A", "fa", 1), c("B", "fb", 2)]);
}

#[test]
fn container_listing_retries_once_after_access_denied() {
    let c = |name: &str, family: &str, sid: u8| AppContainer {
        name: name.to_string(),
        package_family_name: family.to_string(),
        sid: vec![sid],
    };
    match container_listing_step(true, Ok(vec![c("A", "fa", 1), c("A2", "fa", 2)])) {
        ContainerListing::Listed(v) => assert_eq!(v, vec![c("A", "fa", 1)]),
        other => panic!("unexpected {other:?}"),
    }
    assert!(matches!(container_listing_step(true, Err(5)), ContainerListing::RetryWithoutFlags));
    assert!(matches!(container_listing_step(true, Err(0x8007_0005)), ContainerListing::RetryWithoutFlags));
    match container_listing_step(false, Err(5)) {
        ContainerListing::Failed(m) => assert!(m.starts_with("NetworkIsolationEnumAppContainers 失败，错误码 0x00000005（权限不足：")),
        other => panic!("unexpected {other:?}"),
    }
    match container_listing_step(true, Err(0x8000_4005)) {
        ContainerListing::Failed(m) => assert_eq!(
            m,
            "NetworkIsolationEnumAppContainers 失败，错误码 0x80004005（系统拒绝了低层配置：无法解析系统错误文本）"
        ),
        other => panic!("unexpected {other:?}"),
    }
}

#[test]
fn listening_ports_keep_listening_and_unknown_sockets_once() {
    let sockets = vec![
        (7890, SocketState::Listen),
        (0, SocketState::Listen),
        (53, SocketState::Unknown),
        (443, SocketState::Other),
        (7890, SocketState::Unknown),
    ];
    assert_eq!(listening_ports(&sockets), vec![7890, 53]);
    assert_eq!(listening_ports(&Vec::new()), Vec::<u16>::new());
}

#[test]
fn uwp_change_payload_escapes_names() {
    let changes = vec![("a\"b\\c\td\u{1f}".to_string(), false), ("x".to_string(), true)];
    let payload = windows::serialize_uwp_changes(&changes).unwrap();
    assert_eq!(payload, "[[\"a\\\"b\\\\c\\td\\u001f\",false],[\"x\",true]]");
    assert_eq!(windows::deserialize_uwp_changes(&payload).unwrap(), changes);
    assert_eq!(windows::serialize_uwp_changes(&Vec::new()).unwrap(), "[]");
}

#[test]
fn uwp_batches_go_direct_as_administrator_and_elevated_otherwise() {
    let one = vec![("Alpha_abc".to_string(), true)];
    assert_eq!(uwp_batch_route(&[], false), UwpBatchRoute::Nothing);
    assert_eq!(uwp_batch_route(&[], true), UwpBatchRoute::Nothing);
    assert_eq!(uwp_batch_route(&one, true), UwpBatchRoute::Direct);
    assert_eq!(uwp_batch_route(&one, false), UwpBatchRoute::Elevated);
}
