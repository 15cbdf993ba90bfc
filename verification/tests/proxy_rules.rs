use clash_ui::clash::api::{ProxyEntry, ProxyHistory, RuleEntry};
use clash_ui::constants::DEFAULT_TEST_URL;
use clash_ui::controller::proxy::{self, build_group_states, LATENCY_SUCCESS, LATENCY_TESTING};
use clash_ui::controller::rules::{self, rule_rows, sort_rules};

fn proxy_entry(name: &str, type_: &str, all: &[&str], now: Option<&str>, history: Vec<(&str, u16)>) -> ProxyEntry {
    ProxyEntry {
        name: name.to_string(),
        type_: type_.to_string(),
        udp: false,
        uot: false,
        xudp: false,
        tfo: false,
        mptcp: false,
        smux: false,
        alive: false,
        history: history
            .into_iter()
            .map(|(time, delay)| ProxyHistory { time: time.to_string(), delay })
            .collect(),
        provider_name: None,
        dialer_proxy: None,
        now: now.map(|n| n.to_string()),
        all: all.iter().map(|n| n.to_string()).collect(),
        test_url: None,
        hidden: None,
        icon: None,
        empty_fallback: None,
        expected_status: None,
        fixed: None,
    }
}

#[test]
fn builds_stable_groups_and_uses_latest_valid_history() {
    let group = proxy_entry("组 A", "Selector", &["节点 2", "节点 1"], Some("节点 1"), vec![]);
    let node_1 = proxy_entry(
        "节点 1",
        "Shadowsocks",
        &[],
        None,
        vec![("2026-08-04T00:00:00Z", 0), ("2026-08-04T00:01:00Z", 180)],
    );
    let node_2 = proxy_entry("节点 2", "Http", &[], None, vec![]);
    let proxies = vec![
        (group.name.clone(), group),
        (node_1.name.clone(), node_1),
        (node_2.name.clone(), node_2),
    ];

    let groups = build_group_states(&proxies);
    assert_eq!(groups.len(), 1);
    assert_eq!(groups[0].nodes[0].name, "节点 2");
    assert_eq!(groups[0].nodes[1].latency, 180);
    assert_eq!(groups[0].nodes[1].type_, "Shadowsocks");
    assert_eq!(groups[0].test_url, DEFAULT_TEST_URL);
}

#[test]
fn keeps_global_group_last() {
    let mut proxies = Vec::new();
    for name in ["GLOBAL", "自动选择", "直连"] {
        proxies.push((name.to_string(), proxy_entry(name, "Selector", &["节点"], Some("节点"), vec![])));
    }
    let groups = build_group_states(&proxies);
    assert_eq!(
        groups.iter().map(|group| group.name.as_str()).collect::<Vec<_>>(),
        vec!["直连", "自动选择", "GLOBAL"]
    );
}

#[test]
fn keeps_other_groups_sorted_without_global() {
    let mut proxies = Vec::new();
    for name in ["乙", "甲", "丙"] {
        proxies.push((name.to_string(), proxy_entry(name, "Selector", &["节点"], Some("节点"), vec![])));
    }
    let groups = build_group_states(&proxies);
    assert_eq!(
        groups.iter().map(|group| group.name.as_str()).collect::<Vec<_>>(),
        vec!["丙", "乙", "甲"]
    );
}

#[test]
fn clear_runtime_removes_groups_and_invalidates_requests() {
    let mut state = proxy::new_state();
    let proxies = vec![("组".to_string(), proxy_entry("组", "Selector", &["节点"], None, vec![]))];
    state.merge_proxies(&proxies);
    state.loading = true;
    state.error = "旧错误".to_string();
    let (refresh_token, selection_token) = (state.refresh_token, state.selection_token);

    proxy::clear_runtime(&mut state);

    assert!(state.groups.is_empty());
    assert!(!state.loading);
    assert!(state.error.is_empty());
    assert_ne!(state.refresh_token, refresh_token);
    assert_ne!(state.selection_token, selection_token);
    assert_eq!(state.refresh_token, state.selection_token);
}

#[test]
fn refresh_keeps_open_groups_and_running_tests() {
    let mut state = proxy::new_state();
    let proxies = vec![
        ("组".to_string(), proxy_entry("组", "Selector", &["甲", "乙"], Some("甲"), vec![])),
        ("甲".to_string(), proxy_entry("甲", "Http", &[], None, vec![("t", 50)])),
    ];
    state.merge_proxies(&proxies);
    assert_eq!(state.groups[0].nodes[0].latency_state, LATENCY_SUCCESS);
    state.groups[0].open = true;
    state.groups[0].testing = true;
    state.groups[0].nodes[1].latency_state = LATENCY_TESTING;
    state.groups[0].nodes[1].operation_token = 7;
    state.merge_proxies(&proxies);
    assert!(state.groups[0].open);
    assert!(state.groups[0].testing);
    assert_eq!(state.groups[0].nodes[1].latency_state, LATENCY_TESTING);
    assert_eq!(state.groups[0].nodes[1].operation_token, 7);
    assert_eq!(state.groups[0].nodes[1].type_, "未知");
}

fn rule(index: usize, payload: &str) -> RuleEntry {
    RuleEntry {
        index,
        type_: "DOMAIN".to_string(),
        payload: payload.to_string(),
        proxy: "DIRECT".to_string(),
        size: 0,
        extra: None,
    }
}

#[test]
fn sorts_rules_by_index() {
    let rules = sort_rules(vec![rule(2, "two"), rule(0, "zero"), rule(1, "one")]);
    assert_eq!(
        rules.into_iter().map(|rule| rule.payload).collect::<Vec<_>>(),
        vec!["zero".to_string(), "one".to_string(), "two".to_string()]
    );
}

#[test]
fn clear_runtime_removes_rules_and_invalidates_refresh() {
    let mut state = rules::new_state();
    state.rules.push(RuleEntry {
        index: 0,
        type_: "DOMAIN".to_string(),
        payload: "example.com".to_string(),
        proxy: "DIRECT".to_string(),
        size: 1,
        extra: None,
    });
    state.loading = true;
    state.error = "旧错误".to_string();
    let previous_token = state.refresh_token;

    rules::clear_runtime(&mut state);

    assert!(state.rules.is_empty());
    assert!(!state.loading);
    assert!(state.error.is_empty());
    assert_ne!(state.refresh_token, previous_token);
}

#[test]
fn rule_rows_carry_payload_type_and_proxy() {
    let mut state = rules::new_state();
    state.rules = sort_rules(vec![rule(3, "b"), rule(1, "a"), rule(3, "c")]);
    let rows = rule_rows(&state);
    assert_eq!(rows.iter().map(|r| r.id.as_str()).collect::<Vec<_>>(), vec!["rule-1", "rule-3", "rule-3"]);
    assert_eq!(rows[1].cells, vec!["b".to_string(), "DOMAIN".to_string(), "DIRECT".to_string()]);
    assert_eq!(rows[2].cells[0], "c");
}

fn page_with_group() -> proxy::ProxyViewState {
    let group = proxy_entry("组", "Selector", &["甲", "乙"], Some("甲"), vec![]);
    let first = proxy_entry("甲", "Http", &[], None, vec![]);
    let second = proxy_entry("乙", "Http", &[], None, vec![]);
    let proxies = vec![
        (group.name.clone(), group),
        (first.name.clone(), first),
        (second.name.clone(), second),
    ];
    let mut state = proxy::new_state();
    let token = proxy::begin_refresh(&mut state);
    assert!(state.loading);
    assert!(proxy::finish_refresh(&mut state, token, Ok(proxies)));
    assert!(!state.loading);
    state
}

#[test]
fn group_test_marks_nodes_and_applies_reply() {
    let mut state = page_with_group();
    let (name, url, token) = proxy::begin_group_test(&mut state, 0).unwrap();
    assert_eq!(name, "组");
    assert_eq!(url, DEFAULT_TEST_URL);
    assert!(state.groups[0].testing);
    assert!(state.groups[0].nodes.iter().all(|node| node.latency_state == LATENCY_TESTING));
    assert!(proxy::begin_group_test(&mut state, 0).is_none());
    assert!(!proxy::finish_group_test(&mut state, "组", token + 1, Ok(vec![])));
    assert!(proxy::finish_group_test(&mut state, "组", token, Ok(vec![("甲".to_string(), 120), ("乙".to_string(), 0)])));
    assert!(!state.groups[0].testing);
    assert_eq!(state.groups[0].nodes[0].latency, 120);
    assert_eq!(state.groups[0].nodes[0].latency_state, LATENCY_SUCCESS);
    assert_eq!(state.groups[0].nodes[1].latency, 0);
    assert_eq!(state.groups[0].nodes[1].latency_state, proxy::LATENCY_FAILED);
}

#[test]
fn failed_group_test_fails_every_node_under_test() {
    let mut state = page_with_group();
    let (_, _, token) = proxy::begin_group_test(&mut state, -3).unwrap();
    assert!(proxy::finish_group_test(&mut state, "组", token, Err("timeout".to_string())));
    assert!(state.groups[0].nodes.iter().all(|node| node.latency_state == proxy::LATENCY_FAILED));
}

#[test]
fn node_test_applies_only_its_own_reply() {
    let mut state = page_with_group();
    let (group, node, url, token) = proxy::begin_node_test(&mut state, 0, 1).unwrap();
    assert_eq!((group.as_str(), node.as_str(), url.as_str()), ("组", "乙", DEFAULT_TEST_URL));
    assert!(proxy::begin_node_test(&mut state, 0, 1).is_none());
    assert!(proxy::begin_node_test(&mut state, 0, 5).is_none());
    assert!(!proxy::finish_node_test(&mut state, "组", "乙", token + 1, Ok(50)));
    assert!(proxy::finish_node_test(&mut state, "组", "乙", token, Ok(50)));
    assert_eq!(state.groups[0].nodes[1].latency, 50);
    assert_eq!(state.groups[0].nodes[1].latency_state, LATENCY_SUCCESS);
    assert!(state.groups[0].nodes[1].result_override);
}

#[test]
fn selection_reply_is_stale_after_refresh() {
    let mut state = page_with_group();
    let (group, node, token) = proxy::begin_selection(&mut state, 0, 1).unwrap();
    assert_eq!((group.as_str(), node.as_str()), ("组", "乙"));
    assert!(state.loading);
    let refresh = proxy::begin_refresh(&mut state);
    assert!(!proxy::finish_selection(&mut state, token, Err("gone".to_string())));
    assert!(proxy::finish_refresh(&mut state, refresh, Err("连接被拒绝".to_string())));
    assert_eq!(state.error, "加载代理数据失败：连接被拒绝");
    assert_eq!(state.groups.len(), 1);
    assert!(proxy::begin_selection(&mut state, 3, 0).is_none());
}

#[test]
fn toggling_a_group_flips_only_that_group() {
    let mut state = page_with_group();
    let open = state.groups[0].open;
    proxy::toggle_group(&mut state, 0);
    assert_eq!(state.groups[0].open, !open);
    proxy::toggle_group(&mut state, 4);
    assert_eq!(state.groups[0].open, !open);
}

#[test]
fn rules_refresh_sorts_reply_and_ignores_stale_tokens() {
    let mut state = rules::new_state();
    let token = rules::begin_refresh(&mut state);
    assert!(state.loading);
    assert!(!rules::finish_refresh(&mut state, token + 1, Ok(vec![rule(1, "b")])));
    assert!(state.loading);
    assert!(rules::finish_refresh(&mut state, token, Ok(vec![rule(2, "c"), rule(0, "a"), rule(1, "b")])));
    assert!(!state.loading);
    assert_eq!(state.rules.iter().map(|r| r.index).collect::<Vec<_>>(), vec![0, 1, 2]);
    let token = rules::begin_refresh(&mut state);
    assert!(rules::finish_refresh(&mut state, token, Err("超时".to_string())));
    assert_eq!(state.error, "加载规则数据失败：超时");
    assert_eq!(state.rules.len(), 3);
}
