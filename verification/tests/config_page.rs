use clash_ui::app::config::{ConfigEntry, OverrideEntry, SourceType};
use clash_ui::controller::config::{
    self, config_rows, display_name, remove_config, saved_config, store_config, toggle_config,
    update_all_result, update_failure, OperationOutcome,
};
use clash_ui::controller::overrides;

fn config_entry(name: &str, path: &str, enabled: bool) -> ConfigEntry {
    ConfigEntry {
        name: name.to_string(),
        enabled,
        source_type: SourceType::File,
        source_uri: format!("/sources/{path}"),
        path: path.to_string(),
    }
}

#[test]
fn toggling_enables_one_configuration_and_disables_the_rest() {
    let mut configs = vec![config_entry("a", "a.yaml", true), config_entry("b", "b.yaml", false)];
    assert_eq!(toggle_config(&mut configs, "b.yaml"), Ok(true));
    assert_eq!(configs.iter().map(|c| c.enabled).collect::<Vec<_>>(), vec![false, true]);
    assert_eq!(toggle_config(&mut configs, "b.yaml"), Ok(false));
    assert!(configs.iter().all(|c| !c.enabled));
    assert_eq!(toggle_config(&mut configs, "missing.yaml"), Err("未找到要切换的配置".to_string()));
}

#[test]
fn saved_configuration_replaces_the_edited_one_or_is_appended() {
    let mut configs = vec![config_entry("a", "a.yaml", true)];
    let edited = saved_config(Some(&configs[0]), "  新名称  ", SourceType::Http, "https://example.com/a.yaml", "a.yaml".to_string());
    assert_eq!(edited.name, "新名称");
    assert!(edited.enabled);
    store_config(&mut configs, "a.yaml", edited);
    assert_eq!(configs.len(), 1);
    assert_eq!(configs[0].name, "新名称");
    let added = saved_config(None, " ", SourceType::File, "/x/demo.yaml", "configs/demo.yaml".to_string());
    assert_eq!(added.name, "demo.yaml");
    assert!(!added.enabled);
    store_config(&mut configs, "", added);
    assert_eq!(configs.len(), 2);
    remove_config(&mut configs, "a.yaml");
    assert_eq!(configs.len(), 1);
    assert_eq!(configs[0].path, "configs/demo.yaml");
}

#[test]
fn cards_show_the_fallback_name_and_type() {
    let configs = vec![config_entry(" ", "demo.yaml", false)];
    let rows = config_rows(&configs);
    assert_eq!(rows[0].name, "demo.yaml");
    assert_eq!(rows[0].source_type, "file");
    assert_eq!(display_name(&configs[0]), "demo.yaml");
    assert_eq!(update_failure(&configs[0], "超时"), "demo.yaml：超时");
}

#[test]
fn update_all_reports_every_failure() {
    assert_eq!(update_all_result(&Vec::new()), Ok("已更新全部配置".to_string()));
    assert_eq!(
        update_all_result(&vec!["a：x".to_string(), "b：y".to_string()]),
        Err("部分配置更新失败：a：x；b：y".to_string())
    );
}

#[test]
fn configuration_operations_ignore_stale_results() {
    let mut state = config::new_state();
    let token = config::begin_operation(&mut state).unwrap();
    assert!(config::begin_operation(&mut state).is_none());
    assert!(config::begin_refresh(&mut state).is_none());
    assert_eq!(config::finish_operation(&mut state, token + 1, Ok("x".to_string()), true), None);
    assert_eq!(
        config::finish_operation(&mut state, token, Err("保存配置失败".to_string()), true),
        Some(OperationOutcome { message: "保存配置失败".to_string(), variant: 2, close_form: false, reopen_form: true })
    );
    assert_eq!(state.error, "保存配置失败");
    let refresh = config::begin_refresh(&mut state).unwrap();
    assert!(state.loading);
    assert!(config::finish_refresh(&mut state, refresh));
    assert!(!state.loading);
}

#[test]
fn override_operations_take_over_the_refresh() {
    let mut state = overrides::new_state();
    let refresh = overrides::begin_refresh(&mut state).unwrap();
    let token = overrides::begin_operation(&mut state).unwrap();
    assert!(!state.loading);
    assert!(!overrides::finish_refresh(&mut state, refresh));
    assert_eq!(
        overrides::finish_operation(&mut state, token, Ok("覆写已保存".to_string()), true),
        Some(OperationOutcome { message: "覆写已保存".to_string(), variant: 1, close_form: true, reopen_form: false })
    );
    assert!(!state.busy);
}

#[test]
fn saved_override_replaces_the_edited_one() {
    let mut entries = vec![OverrideEntry {
        name: "a".to_string(),
        enabled: true,
        source_type: SourceType::File,
        source_uri: "/a.yaml".to_string(),
        sort: 0,
        path: "overrides/a.yaml".to_string(),
    }];
    let replacement = overrides::build_entry(Some(&entries[0]), "b", SourceType::File, "/b.yaml", "overrides/a.yaml".to_string(), 5);
    overrides::store_override(&mut entries, "overrides/a.yaml", replacement);
    assert_eq!(entries.len(), 1);
    assert_eq!(entries[0].name, "b");
    assert_eq!(entries[0].sort, 0);
    assert_eq!(overrides::find_override(&entries, "overrides/a.yaml"), Some(0));
    let fresh = overrides::build_entry(None, "c", SourceType::Http, "https://c", "overrides/c.yaml".to_string(), 5);
    overrides::store_override(&mut entries, "", fresh);
    assert_eq!(entries.len(), 2);
    assert_eq!(entries[1].sort, 5);
}

#[test]
fn actions_on_a_missing_configuration_are_refused() {
    let configs = vec![config_entry("a", "a.yaml", false), config_entry("b", "b.yaml", true)];
    assert_eq!(config::config_for(&configs, "b.yaml", config::ConfigAction::Update), Ok(1));
    assert_eq!(
        config::config_for(&configs, "x.yaml", config::ConfigAction::Delete),
        Err("未找到要删除的配置".to_string())
    );
    assert_eq!(config::editing_config(&configs, ""), Ok(None));
    assert_eq!(config::editing_config(&configs, "a.yaml"), Ok(Some(0)));
    assert_eq!(config::editing_config(&configs, "x.yaml"), Err("未找到要编辑的配置".to_string()));
    let entries: Vec<OverrideEntry> = vec![];
    assert_eq!(overrides::editing_override(&entries, ""), Ok(None));
    assert_eq!(overrides::editing_override(&entries, "o.yaml"), Err("未找到要编辑的覆写".to_string()));
}
