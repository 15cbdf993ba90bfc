use clash_ui::clash::api::{check_status, ApiError};
use clash_ui::clash::session::CoreError;
use clash_ui::controller::speed_stats::{max_sample, SpeedWindow, MAX_POINTS};
use clash_ui::app::config::AppConfig;
use clash_ui::clash::api::encode_path_segment;
use clash_ui::controller::connections::{cycle_sort, SortColumn, SortDirection, SortState};
use clash_ui::log::{current_date, date_file_stem, format_time_stamp, error_line, dated_error_line};

#[test]
fn encodes_path_segment_reserved_characters() {
    assert_eq!(encode_path_segment("A proxy"), "A%20proxy");
    assert_eq!(encode_path_segment("节点"), "%E8%8A%82%E7%82%B9");
    assert_eq!(encode_path_segment("a/b"), "a%2Fb");
    assert_eq!(encode_path_segment("a?b#c%"), "a%3Fb%23c%25");
    assert_eq!(encode_path_segment("-._~"), "-._~");
}

#[test]
fn sort_state_cycles_descending_ascending_default() {
    let default = SortState::default();
    let descending = cycle_sort(default, SortColumn::Host);
    let ascending = cycle_sort(descending, SortColumn::Host);
    assert_eq!(descending.direction, SortDirection::Desc);
    assert_eq!(ascending.direction, SortDirection::Asc);
    assert_eq!(cycle_sort(ascending, SortColumn::Host), default);
}

#[test]
fn another_column_restarts_descending() {
    let state = cycle_sort(cycle_sort(SortState::default(), SortColumn::Upload), SortColumn::Upload);
    let other = cycle_sort(state, SortColumn::Download);
    assert_eq!(other.column, Some(SortColumn::Download));
    assert_eq!(other.direction, SortDirection::Desc);
}

#[test]
fn shanghai_date_uses_expected_file_name_format() {
    let date = current_date();
    assert_eq!(date.len(), 8);
    assert!(date.chars().all(|character| character.is_ascii_digit()));
}

#[test]
fn date_stems_pad_like_chrono() {
    assert_eq!(date_file_stem(2026, 8, 4), "20260804");
    assert_eq!(date_file_stem(987, 12, 31), "09871231");
    assert_eq!(date_file_stem(12345, 1, 1), "+123450101");
    assert_eq!(date_file_stem(-5, 1, 1), "-00050101");
}

#[test]
fn default_configuration_holds_documented_values() {
    let cfg = AppConfig::default();
    assert!(!cfg.proxy_status.system && !cfg.proxy_status.tun);
    assert_eq!(cfg.settings.clash.port, Some(7890));
    assert_eq!(cfg.settings.clash.bind_address, "127.0.0.1");
    assert_eq!(cfg.settings.clash.tun.device, "clash");
    assert_eq!(cfg.settings.clash.tun.mtu, 9000);
    assert_eq!(cfg.settings.proxy.bypass_list.len(), 6);
}

#[test]
fn log_lines_carry_a_millisecond_time_stamp() {
    assert_eq!(format_time_stamp(2024, 3, 7, 9, 5, 2, 45_600_000), "2024-03-07 09:05:02.045");
    assert_eq!(format_time_stamp(2024, 12, 31, 23, 59, 59, 1_999_000_000), "2024-12-31 23:59:60.999");
    assert_eq!(format_time_stamp(12345, 1, 1, 0, 0, 0, 0), "+12345-01-01 00:00:00.000");
    assert_eq!(error_line("2024-03-07 09:05:02.045", "boom"), "2024-03-07 09:05:02.045 [ERROR] boom");
    let (date, line) = dated_error_line("x");
    assert_eq!(date.len(), 8);
    assert!(line.ends_with(" [ERROR] x"));
    assert!(line.starts_with(&format!("{}-{}-{}", &date[0..4], &date[4..6], &date[6..8])));
}

#[test]
fn speed_window_keeps_newest_sixty_and_scales_by_peak() {
    let mut window = SpeedWindow::new();
    assert_eq!(window.peak(), 1);
    for i in 0..70u64 {
        window.record(i, 1000 - i);
    }
    assert_eq!(window.up.len(), MAX_POINTS);
    assert_eq!(window.up[0], 10);
    assert_eq!(window.up[59], 69);
    assert_eq!(window.down[0], 990);
    assert_eq!(window.peak(), 990);
    assert_eq!(max_sample(&vec![3, 9, 2]), 9);
    assert_eq!(max_sample(&vec![]), 0);
}

#[test]
fn errors_read_as_their_messages() {
    assert_eq!(ApiError::NoSession.message(), "核心会话未建立（未启动或无端口）");
    assert_eq!(ApiError::HttpStatus(404, "404 Not Found".to_string()).message(), "HTTP 状态码 404: 404 Not Found");
    assert_eq!(ApiError::Ws("closed".to_string()).message(), "WebSocket 错误: closed");
    assert_eq!(check_status(204, "204 No Content"), Ok(()));
    assert_eq!(check_status(500, "500 Internal Server Error"), Err(ApiError::HttpStatus(500, "500 Internal Server Error".to_string())));
    assert!(check_status(199, "x").is_err());
    assert_eq!(CoreError::CoreMissing.message(), "未找到 clash 核心可执行文件");
    assert_eq!(CoreError::Io("读取 app.yaml".to_string(), "denied".to_string()).message(), "读取 app.yaml: denied");
    assert_eq!(CoreError::ProcessGuard("x".to_string()).message(), "监管核心进程失败：x");
}
