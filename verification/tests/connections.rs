use clash_ui::clash::api::{ConnEntry, ConnMeta, ConnectionSnapshot};
use clash_ui::controller::connections::{
    apply_snapshot, begin_operation, clear_history_local, clear_runtime, close_detail, connection_host,
    detail_fields, finish_operation, matches_query, new_state, open_detail, parse_history_identity, project_rows,
    record_for_identity, remove_history_local, secondary_text, select_tab, set_query, sort_by_index,
    sort_column_index, sort_direction_value, visible_connections, ConnectionRecord, ConnectionTab,
    ConnectionsViewState, Rate, SortColumn, SortDirection, SortState,
};
use clash_ui::json::JsonValue;

const SECOND: u64 = 1_000_000_000;

fn entry(id: &str, host: &str, upload: u64, download: u64) -> ConnEntry {
    ConnEntry {
        id: id.to_string(),
        metadata: ConnMeta {
            host: host.to_string(),
            ..ConnMeta::default()
        },
        upload,
        download,
        start: format!("2026-08-11T08:00:0{id}Z"),
        ..ConnEntry::default()
    }
}

fn snapshot(entries: Vec<ConnEntry>) -> ConnectionSnapshot {
    ConnectionSnapshot {
        connections: entries,
        ..ConnectionSnapshot::default()
    }
}

fn per_second(rate: Rate) -> f64 {
    if rate.nanos == 0 {
        0.0
    } else {
        rate.bytes as f64 / std::time::Duration::from_nanos(rate.nanos).as_secs_f64()
    }
}

fn active<'a>(state: &'a ConnectionsViewState, id: &str) -> &'a ConnectionRecord {
    state.active_by_id.iter().find(|record| record.entry.id == id).unwrap()
}

fn detail_record() -> ConnectionRecord {
    let mut metadata = ConnMeta {
        network: "tcp".to_string(),
        type_: "HTTP".to_string(),
        source_geo_ip: Some(vec!["CN".to_string()]),
        destination_geo_ip: Some(Vec::new()),
        uid: 0,
        dscp: 0,
        ..ConnMeta::default()
    };
    metadata.extra.push(("flag".to_string(), JsonValue::Bool(false)));
    metadata.extra.push(("nullable".to_string(), JsonValue::Null));
    let mut entry = entry("a", "alpha.example", 0, 0);
    entry.metadata = metadata;
    entry.extra.push((
        "object".to_string(),
        JsonValue::Object(vec![(
            "items".to_string(),
            JsonValue::Array(vec![JsonValue::Number("1".to_string()), JsonValue::Null]),
        )]),
    ));
    ConnectionRecord {
        entry,
        upload_rate: Rate::zero(),
        download_rate: Rate { bytes: 1024, nanos: SECOND },
    }
}

fn expected_detail_labels() -> Vec<&'static str> {
    vec![
        "连接 ID",
        "已上传",
        "已下载",
        "建立时间",
        "代理链",
        "代理提供者链",
        "匹配规则",
        "规则内容",
        "网络协议",
        "连接类型",
        "源 IP",
        "目标 IP",
        "源 IP 地理信息",
        "目标 IP 地理信息",
        "源 IP ASN",
        "目标 IP ASN",
        "源端口",
        "目标端口",
        "入站 IP",
        "入站端口",
        "入站名称",
        "入站用户",
        "重匹配名称",
        "目标主机",
        "DNS 模式",
        "用户 ID",
        "进程名称",
        "进程路径",
        "特殊代理",
        "特殊规则",
        "远程目标",
        "DSCP",
        "嗅探主机",
        "上传速度",
        "下载速度",
    ]
}

#[test]
fn first_frame_only_establishes_active_baseline() {
    let mut state = new_state();
    apply_snapshot(&mut state, snapshot(vec![entry("a", "a.example", 1, 2)]), 7 * SECOND);
    assert!(state.closed.is_empty());
    assert_eq!(state.active_by_id.len(), 1);
}

#[test]
fn clear_runtime_removes_active_history_and_detail_without_losing_preferences() {
    let mut state = new_state();
    let start = 7 * SECOND;
    apply_snapshot(&mut state, snapshot(vec![entry("a", "a.example", 1, 2)]), start);
    apply_snapshot(&mut state, snapshot(Vec::new()), start + SECOND);
    state.detail_identity = Some("history-1".to_string());
    state.busy = true;
    state.error = "旧错误".to_string();
    state.toast = "旧提示".to_string();
    state.query = "保留筛选".to_string();
    state.selected_tab = ConnectionTab::Closed;
    let previous_token = state.operation_token;

    clear_runtime(&mut state);

    assert!(state.active_by_id.is_empty());
    assert!(state.closed.is_empty());
    assert!(!state.initialized);
    assert!(state.previous_snapshot_at.is_none());
    assert!(!state.busy);
    assert!(state.error.is_empty());
    assert!(state.toast.is_empty());
    assert!(state.detail_identity.is_none());
    assert_ne!(state.operation_token, previous_token);
    assert_eq!(state.query, "保留筛选");
    assert_eq!(state.selected_tab, ConnectionTab::Closed);
}

#[test]
fn archives_subsequent_difference_and_allows_reappearing_connection() {
    let mut state = new_state();
    let start = 7 * SECOND;
    apply_snapshot(
        &mut state,
        snapshot(vec![entry("a", "a.example", 1, 2), entry("b", "b.example", 3, 4)]),
        start,
    );
    apply_snapshot(&mut state, snapshot(vec![entry("b", "b.example", 4, 5)]), start + SECOND);
    apply_snapshot(&mut state, snapshot(vec![entry("a", "a.example", 8, 9)]), start + 2 * SECOND);
    apply_snapshot(&mut state, snapshot(Vec::new()), start + 3 * SECOND);
    assert!(state.active_by_id.is_empty());
    assert_eq!(state.closed.len(), 3);
    assert_eq!(state.closed[0].record.entry.id, "a");
    assert_eq!(state.closed[1].record.entry.id, "b");
    assert_eq!(state.closed[2].record.entry.id, "a");
}

#[test]
fn rate_uses_real_interval_and_saturating_difference() {
    let mut state = new_state();
    let start = 7 * SECOND;
    apply_snapshot(&mut state, snapshot(vec![entry("a", "a.example", 100, 200)]), start);
    apply_snapshot(&mut state, snapshot(vec![entry("a", "a.example", 50, 600)]), start + SECOND / 2);
    let record = active(&state, "a");
    assert_eq!(per_second(record.upload_rate), 0.0);
    assert_eq!(per_second(record.download_rate), 800.0);
}

#[test]
fn search_and_format_follow_page_semantics() {
    let record = ConnectionRecord {
        entry: entry("a", "Example.COM", 0, 0),
        upload_rate: Rate { bytes: 1024, nanos: SECOND },
        download_rate: Rate::zero(),
    };
    assert!(matches_query(&record, "example"));
    assert!(!matches_query(&record, "rule-not-found"));
}

#[test]
fn two_tabs_filter_and_tri_state_sort_raw_values_separately() {
    let mut state = new_state();
    let mut first = entry("a", "alpha.example", 1, 20);
    first.rule = "MATCH-A".to_string();
    let mut second = entry("b", "beta.example", 2, 40);
    second.rule = "MATCH-B".to_string();
    let start = 7 * SECOND;
    apply_snapshot(&mut state, snapshot(vec![first, second]), start);
    apply_snapshot(&mut state, snapshot(vec![entry("b", "beta.example", 3, 60)]), start + SECOND);

    state.sort = SortState {
        column: Some(SortColumn::Download),
        direction: SortDirection::Desc,
    };
    let active = visible_connections(&state);
    assert_eq!(active.len(), 1);
    assert_eq!(active[0].identity, "b");

    state.selected_tab = ConnectionTab::Closed;
    state.query = "alpha".to_string();
    let closed = visible_connections(&state);
    assert_eq!(closed.len(), 1);
    assert_eq!(closed[0].identity, "history-1");
    assert_eq!(project_rows(&state).len(), 1);
}

#[test]
fn details_include_fixed_chinese_fields_and_hide_unknown_extensions() {
    let fields = detail_fields(&detail_record(), "0 B/s", "1.0 KB/s");
    let labels = fields.iter().map(|(label, _)| label.as_str()).collect::<Vec<_>>();
    assert_eq!(labels, expected_detail_labels());
    assert!(!labels.iter().any(|label| label.contains("metadata.")));
    assert!(!labels.iter().any(|label| label.contains("extra")));
    assert_eq!(
        fields.iter().find(|(label, _)| label == "源 IP 地理信息").unwrap().1,
        "[\n  \"CN\"\n]"
    );
    assert_eq!(fields.len(), 35);
}

#[test]
fn history_remove_matches_exactly_and_clear_isolated_from_active() {
    let mut state = new_state();
    let start = 7 * SECOND;
    apply_snapshot(
        &mut state,
        snapshot(vec![entry("a", "a.example", 1, 1), entry("b", "b.example", 1, 1)]),
        start,
    );
    apply_snapshot(&mut state, snapshot(vec![entry("b", "b.example", 2, 2)]), start + SECOND);
    apply_snapshot(&mut state, snapshot(Vec::new()), start + 2 * SECOND);
    assert!(remove_history_local(&mut state, "history-1"));
    assert!(!remove_history_local(&mut state, "history-1"));
    assert!(clear_history_local(&mut state));
    assert!(state.closed.is_empty());
    assert!(state.active_by_id.is_empty());
}

#[test]
fn rejects_history_actions_when_busy() {
    let mut state = new_state();
    let start = 7 * SECOND;
    apply_snapshot(&mut state, snapshot(vec![entry("a", "a.example", 1, 1)]), start);
    apply_snapshot(&mut state, snapshot(Vec::new()), start + SECOND);
    state.busy = true;
    assert!(!remove_history_local(&mut state, "history-1"));
    assert!(!clear_history_local(&mut state));
    assert_eq!(state.closed.len(), 1);
}

#[test]
fn archived_connections_take_increasing_history_numbers() {
    let mut state = new_state();
    apply_snapshot(
        &mut state,
        snapshot(vec![entry("a", "a.example", 1, 1), entry("b", "b.example", 1, 1), entry("c", "c.example", 1, 1)]),
        SECOND,
    );
    apply_snapshot(&mut state, snapshot(vec![entry("b", "b.example", 1, 1)]), 2 * SECOND);
    assert_eq!(state.closed.len(), 2);
    assert_eq!(state.closed[0].record.entry.id, "a");
    assert_eq!(state.closed[0].history_id, 2);
    assert_eq!(state.closed[1].record.entry.id, "c");
    assert_eq!(state.closed[1].history_id, 1);
    assert_eq!(state.next_history_id, 3);
}

#[test]
fn duplicate_identifiers_in_a_frame_keep_the_last_entry() {
    let mut state = new_state();
    apply_snapshot(
        &mut state,
        snapshot(vec![entry("a", "first.example", 1, 1), entry("a", "second.example", 5, 5)]),
        SECOND,
    );
    assert_eq!(state.active_by_id.len(), 1);
    assert_eq!(state.active_by_id[0].entry.metadata.host, "second.example");
}

#[test]
fn no_interval_gives_zero_rates() {
    let mut state = new_state();
    apply_snapshot(&mut state, snapshot(vec![entry("a", "a.example", 1, 1)]), SECOND);
    apply_snapshot(&mut state, snapshot(vec![entry("a", "a.example", 9, 9)]), SECOND);
    let record = active(&state, "a");
    assert_eq!(record.upload_rate, Rate::zero());
    assert_eq!(record.download_rate, Rate::zero());
}

#[test]
fn sorts_by_rate_and_host_in_both_directions() {
    let mut state = new_state();
    apply_snapshot(
        &mut state,
        snapshot(vec![entry("a", "zeta.example", 0, 0), entry("b", "alpha.example", 0, 0), entry("c", "mid.example", 0, 0)]),
        SECOND,
    );
    apply_snapshot(
        &mut state,
        snapshot(vec![entry("a", "zeta.example", 0, 300), entry("b", "alpha.example", 0, 100), entry("c", "mid.example", 0, 200)]),
        3 * SECOND,
    );
    sort_by_index(&mut state, 1);
    let ids: Vec<String> = visible_connections(&state).into_iter().map(|item| item.identity).collect();
    assert_eq!(ids, vec!["a", "c", "b"]);
    sort_by_index(&mut state, 0);
    let ids: Vec<String> = visible_connections(&state).into_iter().map(|item| item.identity).collect();
    assert_eq!(ids, vec!["a", "c", "b"]);
    sort_by_index(&mut state, 0);
    let ids: Vec<String> = visible_connections(&state).into_iter().map(|item| item.identity).collect();
    assert_eq!(ids, vec!["b", "c", "a"]);
    sort_by_index(&mut state, 0);
    assert_eq!(state.sort, SortState::default());
    let ids: Vec<String> = visible_connections(&state).into_iter().map(|item| item.identity).collect();
    assert_eq!(ids, vec!["c", "b", "a"]);
    sort_by_index(&mut state, 9);
    assert_eq!(state.sort, SortState::default());
}

#[test]
fn sort_indicators_follow_the_sort() {
    assert_eq!(sort_column_index(None), -1);
    assert_eq!(sort_column_index(Some(SortColumn::Upload)), 4);
    assert_eq!(sort_direction_value(SortState::default()), 0);
    let desc = SortState { column: Some(SortColumn::Host), direction: SortDirection::Desc };
    assert_eq!(sort_direction_value(desc), 1);
    let asc = SortState { column: Some(SortColumn::Host), direction: SortDirection::Asc };
    assert_eq!(sort_direction_value(asc), -1);
}

#[test]
fn host_falls_back_to_destination_then_placeholder() {
    let mut record = ConnectionRecord {
        entry: entry("a", "", 0, 0),
        upload_rate: Rate::zero(),
        download_rate: Rate::zero(),
    };
    assert_eq!(connection_host(&record), "未知主机");
    record.entry.metadata.destination_ip = "192.0.2.1".to_string();
    assert_eq!(connection_host(&record), "192.0.2.1");
    record.entry.metadata.host = "example.com".to_string();
    assert_eq!(connection_host(&record), "example.com");
}

#[test]
fn rows_carry_title_and_secondary_line() {
    let mut state = new_state();
    let mut e = entry("a", "example.com", 3, 4);
    e.metadata.process = "browser".to_string();
    e.metadata.type_ = "HTTP".to_string();
    e.metadata.network = "tcp".to_string();
    e.chains = vec!["Proxy".to_string(), "Relay".to_string()];
    e.rule = "MATCH".to_string();
    e.rule_payload = "DIRECT".to_string();
    apply_snapshot(&mut state, snapshot(vec![e]), SECOND);
    let rows = project_rows(&state);
    assert_eq!(rows.len(), 1);
    assert_eq!(rows[0].id, "a");
    assert_eq!(rows[0].title, "browser → example.com");
    assert_eq!(rows[0].secondary, "HTTP · tcp · Proxy · MATCH: DIRECT");
    assert_eq!(rows[0].download, 4);
    assert_eq!(rows[0].upload, 3);
    assert_eq!(secondary_text(&state.active_by_id[0]), "HTTP · tcp · Proxy · MATCH: DIRECT");
}

#[test]
fn detail_opens_only_for_known_identities() {
    let mut state = new_state();
    apply_snapshot(&mut state, snapshot(vec![entry("a", "a.example", 1, 1)]), SECOND);
    apply_snapshot(&mut state, snapshot(vec![entry("b", "b.example", 1, 1)]), 2 * SECOND);
    open_detail(&mut state, "missing".to_string());
    assert!(state.detail_identity.is_none());
    open_detail(&mut state, "history-1".to_string());
    assert_eq!(state.detail_identity.as_deref(), Some("history-1"));
    assert_eq!(record_for_identity(&state, "history-1").unwrap().entry.id, "a");
    assert_eq!(record_for_identity(&state, "b").unwrap().entry.id, "b");
    assert!(record_for_identity(&state, "history-x").is_none());
    close_detail(&mut state);
    assert!(state.detail_identity.is_none());
    open_detail(&mut state, "b".to_string());
    select_tab(&mut state, 1);
    assert_eq!(state.selected_tab, ConnectionTab::Closed);
    assert!(state.detail_identity.is_none());
    select_tab(&mut state, 7);
    assert_eq!(state.selected_tab, ConnectionTab::Active);
}

#[test]
fn history_identities_parse_like_unsigned_numbers() {
    assert_eq!(parse_history_identity("history-12"), Some(12));
    assert_eq!(parse_history_identity("history-+3"), Some(3));
    assert_eq!(parse_history_identity("history-"), None);
    assert_eq!(parse_history_identity("history-18446744073709551616"), None);
    assert_eq!(parse_history_identity("History-1"), None);
}

#[test]
fn stale_operation_replies_are_ignored() {
    let mut state = new_state();
    let token = begin_operation(&mut state).unwrap();
    assert!(state.busy);
    assert!(begin_operation(&mut state).is_none());
    assert_eq!(finish_operation(&mut state, token + 1, Ok("late".to_string())), None);
    assert!(state.busy);
    assert_eq!(
        finish_operation(&mut state, token, Err("关闭连接失败".to_string())),
        Some(("关闭连接失败".to_string(), 2))
    );
    assert!(!state.busy);
    assert_eq!(state.error, "关闭连接失败");
    let token = begin_operation(&mut state).unwrap();
    assert!(state.error.is_empty());
    assert_eq!(finish_operation(&mut state, token, Ok("done".to_string())), Some(("done".to_string(), 1)));
    assert_eq!(state.toast, "done");
}

#[test]
fn query_matches_rule_case_insensitively() {
    let mut state = new_state();
    let mut e = entry("a", "a.example", 1, 1);
    e.rule = "DOMAIN-SUFFIX".to_string();
    apply_snapshot(&mut state, snapshot(vec![e, entry("b", "b.example", 1, 1)]), SECOND);
    set_query(&mut state, "domain".to_string());
    let ids: Vec<String> = visible_connections(&state).into_iter().map(|item| item.identity).collect();
    assert_eq!(ids, vec!["a"]);
}

#[test]
fn consumes_latest_snapshot_and_archives_after_lag() {
    // Of the two frames sent, a lagging receiver gets only the latest one.
    let latest = snapshot(vec![entry("a", "a.example", 2, 2)]);
    let mut state = new_state();
    apply_snapshot(&mut state, latest, SECOND);
    apply_snapshot(&mut state, snapshot(Vec::new()), 2 * SECOND);
    assert_eq!(state.closed.len(), 1);
}

#[test]
fn geo_details_are_pretty_json_with_escapes() {
    let mut record = detail_record();
    record.entry.metadata.source_geo_ip = Some(vec!["CN".to_string(), "a\"b\\c\nd\u{1}".to_string()]);
    let fields = detail_fields(&record, "0 B/s", "1.0 KB/s");
    assert_eq!(
        fields.iter().find(|(label, _)| label == "源 IP 地理信息").unwrap().1,
        "[\n  \"CN\",\n  \"a\\\"b\\\\c\\nd\\u0001\"\n]"
    );
    assert_eq!(fields.iter().find(|(label, _)| label == "目标 IP 地理信息").unwrap().1, "[]");
}
