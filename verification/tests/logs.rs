use clash_ui::clash::api::LogLine;
use clash_ui::constants::MAX_LOG_RECORDS;
use clash_ui::controller::logs::{
    clear_runtime, level_from_index, new_state, project_rows, read_state, set_all_level, set_tab,
    tab_from_index, LogLevel, LogTab, LogsViewState,
};

fn line(sequence: u64, level: &str, message: &str) -> LogLine {
    LogLine {
        time: format!("08:00:{sequence:02}"),
        level: level.to_string(),
        message: message.to_string(),
    }
}

fn sample_state() -> LogsViewState {
    let mut state = LogsViewState::default();
    assert!(state.append_line(line(1, "debug", "debug message")));
    assert!(state.append_line(line(2, "info", "Info message")));
    assert!(state.append_line(line(3, "warn", "warning message")));
    assert!(state.append_line(line(4, "error", "ERROR message")));
    state
}

#[test]
fn defaults_to_all_debug_and_all_levels() {
    let state = sample_state();
    assert_eq!(state.selected_tab, LogTab::All);
    assert_eq!(state.all_level, LogLevel::Debug);
    assert_eq!(state.visible_records().len(), 4);
}

#[test]
fn filters_all_level_by_severity() {
    let mut state = sample_state();
    state.set_all_level(LogLevel::Error);
    assert_eq!(state.visible_records().len(), 1);
    state.set_all_level(LogLevel::Warning);
    assert_eq!(state.visible_records().len(), 2);
    state.set_all_level(LogLevel::Info);
    assert_eq!(state.visible_records().len(), 3);
    state.set_all_level(LogLevel::Debug);
    assert_eq!(state.visible_records().len(), 4);
}

#[test]
fn filters_exactly_by_four_level_tabs() {
    let mut state = sample_state();
    for (tab, expected) in [
        (LogTab::Error, LogLevel::Error),
        (LogTab::Warning, LogLevel::Warning),
        (LogTab::Info, LogLevel::Info),
        (LogTab::Debug, LogLevel::Debug),
    ] {
        state.set_tab(tab);
        let records = state.visible_records();
        assert_eq!(records.len(), 1);
        assert_eq!(records[0].level, expected);
    }
}

#[test]
fn search_only_message_with_unicode_lowercase() {
    let mut state = sample_state();
    state.set_query("INFO MESSAGE".to_string());
    assert_eq!(state.visible_records().len(), 1);
    assert_eq!(state.visible_records()[0].level, LogLevel::Info);
    state.set_query("08:00".to_string());
    assert!(state.visible_records().is_empty());
}

#[test]
fn keeps_latest_1000_records_in_sequence_order() {
    let mut state = LogsViewState::default();
    for index in 1..=1001 {
        assert!(state.append_line(line(index, "debug", "message")));
    }
    assert_eq!(state.records().len(), MAX_LOG_RECORDS);
    assert_eq!(state.records().front().unwrap().sequence, 2);
    assert_eq!(state.records().back().unwrap().sequence, 1001);
}

#[test]
fn continues_receiving_after_clear() {
    let mut state = sample_state();
    state.clear();
    assert!(state.records().is_empty());
    assert!(state.append_line(line(5, "info", "after clear")));
    assert_eq!(state.records().len(), 1);
    assert_eq!(state.records().front().unwrap().sequence, 5);
}

#[test]
fn clear_runtime_clears_shared_records() {
    let mut state = new_state();
    assert!(state.append_line(line(1, "info", "核心日志")));

    clear_runtime(&mut state);

    assert!(read_state(&state).records().is_empty());
}

#[test]
fn normalize_warning_and_reject_unknown_level() {
    let mut state = LogsViewState::default();
    assert!(state.append_line(line(1, "warning", "one")));
    assert!(state.append_line(line(2, "warn", "two")));
    assert!(!state.append_line(line(3, "silent", "three")));
    assert_eq!(state.records().len(), 2);
    assert!(state
        .records()
        .iter()
        .all(|record| record.level == LogLevel::Warning));
}

#[test]
fn preserves_dropdown_state_after_leaving_all() {
    let mut state = sample_state();
    state.set_all_level(LogLevel::Warning);
    state.set_tab(LogTab::Error);
    assert_eq!(state.visible_records().len(), 1);
    state.set_tab(LogTab::All);
    assert_eq!(state.all_level, LogLevel::Warning);
    assert_eq!(state.visible_records().len(), 2);
}

#[test]
fn projection_exports_only_time_level_and_full_message() {
    let state = sample_state();
    let rows = project_rows(&state);
    assert_eq!(rows.len(), 4);
    assert_eq!(rows[0].time.to_string(), "08:00:01");
    assert_eq!(rows[0].level.to_string(), "DEBUG");
    assert_eq!(rows[0].message.to_string(), "debug message");
    assert_eq!(rows[0].level_index, 3);
}

#[test]
fn state_is_independent_and_projects_cached_items_before_attach() {
    let mut state = new_state();
    assert!(state.append_line(line(1, "info", "窗口创建前")));
    let rows = project_rows(&read_state(&state));
    assert_eq!(rows.len(), 1);
    assert_eq!(rows[0].message.to_string(), "窗口创建前");
}

#[test]
fn level_names_ignore_ascii_case_and_map_to_labels() {
    assert_eq!(LogLevel::parse("ERROR"), Some(LogLevel::Error));
    assert_eq!(LogLevel::parse("Warn"), Some(LogLevel::Warning));
    assert_eq!(LogLevel::parse("iNfO"), Some(LogLevel::Info));
    assert_eq!(LogLevel::parse("trace"), None);
    assert_eq!(LogLevel::Warning.label(), "WARN");
    assert_eq!(LogLevel::Error.severity(), 3);
    assert_eq!(LogLevel::Debug.index(), 3);
}

#[test]
fn positions_map_to_tabs_and_levels() {
    assert_eq!(tab_from_index(0), Some(LogTab::All));
    assert_eq!(tab_from_index(4), Some(LogTab::Debug));
    assert_eq!(tab_from_index(5), None);
    assert_eq!(level_from_index(1), Some(LogLevel::Warning));
    assert_eq!(level_from_index(-1), None);
    let mut state = sample_state();
    set_tab(&mut state, 2);
    assert_eq!(state.selected_tab, LogTab::Warning);
    set_tab(&mut state, 9);
    assert_eq!(state.selected_tab, LogTab::Warning);
    set_all_level(&mut state, 0);
    assert_eq!(state.all_level, LogLevel::Error);
}

#[test]
fn unicode_search_lowercases_both_sides() {
    let mut state = LogsViewState::default();
    assert!(state.append_line(line(1, "info", "ÄRGER im Netz")));
    state.set_query("ärger".to_string());
    assert_eq!(state.visible_records().len(), 1);
    state.toggle_pause();
    assert!(state.paused());
}
