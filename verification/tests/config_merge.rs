use clash_ui::clash::documents::runtime_config_text;
use clash_ui::clash::session::CoreError;
use clash_ui::app::config::{AppConfig, ConfigEntry, OverrideEntry};
use clash_ui::clash::config_merge::{
    apply_array_op, clash_settings_value, deep_merge, enabled_config_indices, is_instruction_key,
    merge_runtime_config, override_merge_order, parse_instruction, ArrayOp,
};
use clash_ui::json::{copy_value, JsonValue};

fn s(text: &str) -> JsonValue {
    JsonValue::Str(text.to_string())
}

fn n(text: &str) -> JsonValue {
    JsonValue::Number(text.to_string())
}

fn arr(items: Vec<JsonValue>) -> JsonValue {
    JsonValue::Array(items)
}

fn obj(entries: Vec<(&str, JsonValue)>) -> JsonValue {
    JsonValue::Object(entries.into_iter().map(|(k, v)| (k.to_string(), v)).collect())
}

fn get<'a>(value: &'a JsonValue, key: &str) -> Option<&'a JsonValue> {
    match value {
        JsonValue::Object(entries) => entries.iter().find(|(k, _)| k == key).map(|(_, v)| v),
        _ => None,
    }
}

fn texts(value: &JsonValue) -> Vec<String> {
    match value {
        JsonValue::Array(items) => items
            .iter()
            .map(|item| match item {
                JsonValue::Str(t) => t.clone(),
                other => format!("{other:?}"),
            })
            .collect(),
        _ => panic!("not an array: {value:?}"),
    }
}

fn number(value: Option<&JsonValue>) -> Option<String> {
    match value {
        Some(JsonValue::Number(t)) => Some(t.clone()),
        _ => None,
    }
}

fn text(value: Option<&JsonValue>) -> Option<String> {
    match value {
        Some(JsonValue::Str(t)) => Some(t.clone()),
        _ => None,
    }
}

#[test]
fn deep_merge_overwrites_and_preserves_missing_keys() {
    let mut base = obj(vec![("a", n("1")), ("b", obj(vec![("x", n("1")), ("y", n("2"))]))]);
    let other = obj(vec![("b", obj(vec![("y", n("20")), ("z", n("3"))])), ("c", n("4"))]);
    deep_merge(&mut base, &other);
    assert_eq!(number(get(&base, "a")), Some("1".to_string()));
    let b = get(&base, "b").unwrap();
    assert_eq!(number(get(b, "y")), Some("20".to_string()));
    assert_eq!(number(get(b, "x")), Some("1".to_string()));
    assert_eq!(number(get(b, "z")), Some("3".to_string()));
    assert_eq!(number(get(&base, "c")), Some("4".to_string()));
}

#[test]
fn array_instructions_apply_without_leaking_instruction_keys() {
    let mut base = obj(vec![("list", arr(vec![s("a"), s("b")]))]);
    deep_merge(&mut base, &obj(vec![("list::^", arr(vec![s("z")]))]));
    assert_eq!(texts(get(&base, "list").unwrap()), vec!["z", "a", "b"]);
    assert!(get(&base, "list::^").is_none());

    let mut base = obj(vec![("list", arr(vec![s("a"), s("b")]))]);
    deep_merge(&mut base, &obj(vec![("list::$", arr(vec![s("z")]))]));
    assert_eq!(texts(get(&base, "list").unwrap()), vec!["a", "b", "z"]);

    let mut base = obj(vec![("list", arr(vec![s("a"), s("b"), s("c")]))]);
    deep_merge(&mut base, &obj(vec![("list::1", arr(vec![s("x")]))]));
    assert_eq!(texts(get(&base, "list").unwrap()), vec!["a", "b", "x", "c"]);

    let mut base = obj(vec![("list", arr(vec![s("a"), s("b")]))]);
    deep_merge(&mut base, &obj(vec![("list::9", arr(vec![s("x")]))]));
    assert_eq!(texts(get(&base, "list").unwrap()), vec!["a", "b", "x"]);

    let mut base = obj(vec![]);
    deep_merge(&mut base, &obj(vec![("list::$", arr(vec![s("x")]))]));
    assert_eq!(texts(get(&base, "list").unwrap()), vec!["x"]);
}

#[test]
fn replacement_happens_before_insertion_in_one_layer() {
    let mut base = obj(vec![("list", arr(vec![s("a")]))]);
    deep_merge(&mut base, &obj(vec![("list", arr(vec![s("x")])), ("list::$", arr(vec![s("y")]))]));
    assert_eq!(texts(get(&base, "list").unwrap()), vec!["x", "y"]);
}

#[test]
fn nested_instructions_and_scalar_operands() {
    let mut base = obj(vec![("dns", obj(vec![("servers", arr(vec![s("a")]))]))]);
    deep_merge(&mut base, &obj(vec![("dns", obj(vec![("servers::^", s("z"))]))]));
    let dns = get(&base, "dns").unwrap();
    assert_eq!(texts(get(dns, "servers").unwrap()), vec!["z", "a"]);
    assert!(get(dns, "servers::^").is_none());

    let mut base = obj(vec![("list", s("not-array"))]);
    deep_merge(&mut base, &obj(vec![("list::0", arr(vec![s("x")]))]));
    assert_eq!(texts(get(&base, "list").unwrap()), vec!["x"]);
}

#[test]
fn instruction_keys_are_recognised() {
    assert!(is_instruction_key("rules::^"));
    assert!(is_instruction_key("rules::$"));
    assert!(is_instruction_key("rules::12"));
    assert!(!is_instruction_key("rules::"));
    assert!(!is_instruction_key("rules::1a"));
    assert!(!is_instruction_key("rules"));
    assert!(is_instruction_key("a::b::3"));
    match parse_instruction("a::b::3") {
        Some((target, ArrayOp::Insert(3))) => assert_eq!(target, "a::b"),
        other => panic!("unexpected {other:?}"),
    }
    match parse_instruction("list::99999999999999999999999") {
        Some((target, ArrayOp::Insert(index))) => {
            assert_eq!(target, "list");
            assert_eq!(index, usize::MAX);
        }
        other => panic!("unexpected {other:?}"),
    }
    assert!(parse_instruction("list").is_none());
}

#[test]
fn insert_past_end_appends_like_dollar() {
    let mut a = arr(vec![s("a"), s("b")]);
    apply_array_op(&mut a, ArrayOp::Insert(usize::MAX), &s("x"));
    let mut b = arr(vec![s("a"), s("b")]);
    apply_array_op(&mut b, ArrayOp::Append, &s("x"));
    assert_eq!(texts(&a), texts(&b));
    assert_eq!(texts(&a), vec!["a", "b", "x"]);
}

fn config(path: &str, enabled: bool) -> ConfigEntry {
    ConfigEntry { enabled, path: path.to_string(), ..ConfigEntry::default() }
}

fn override_entry(path: &str, enabled: bool, sort: i64) -> OverrideEntry {
    OverrideEntry { enabled, sort, path: path.to_string(), ..OverrideEntry::default() }
}

#[test]
fn merge_order_and_removal_are_applied() {
    let mut cfg = AppConfig::default();
    cfg.configs.push(config("data/configs/c1.yaml", true));
    cfg.overrides.push(override_entry("data/overrides/o1.yaml", true, 5));
    cfg.settings.clash.mixed_port = Some(7890);
    assert_eq!(enabled_config_indices(&cfg.configs), vec![0]);
    assert_eq!(override_merge_order(&cfg.overrides), vec![0]);

    let config_doc = obj(vec![
        ("foo", s("from-config")),
        ("bar", n("1")),
        ("some-list", arr(vec![s("a"), s("b")])),
    ]);
    let override_doc = obj(vec![
        ("foo", s("from-override")),
        ("another", n("2")),
        ("some-list::^", arr(vec![s("z")])),
    ]);
    let fixed = obj(vec![
        ("external-ui", s("ui")),
        ("external-controller", s("fixed")),
        ("secret", s("fixed")),
    ]);
    let merged = merge_runtime_config(&vec![config_doc, override_doc], &cfg.settings.clash, cfg.proxy_status.tun, &fixed);
    assert_eq!(text(get(&merged, "foo")), Some("from-override".to_string()));
    assert_eq!(number(get(&merged, "bar")), Some("1".to_string()));
    assert_eq!(number(get(&merged, "another")), Some("2".to_string()));
    assert_eq!(texts(get(&merged, "some-list").unwrap()), vec!["z", "a", "b"]);
    assert_eq!(number(get(&merged, "mixed-port")), Some("7890".to_string()));
    assert!(get(&merged, "external-controller").is_none());
    assert!(get(&merged, "secret").is_none());
}

#[test]
fn override_sort_merges_larger_sort_first() {
    let overrides = vec![
        override_entry("data/overrides/a.yaml", true, 0),
        override_entry("data/overrides/b.yaml", true, 1),
    ];
    let order = override_merge_order(&overrides);
    assert_eq!(order, vec![1, 0]);
    let docs = vec![obj(vec![("conflict", s("A"))]), obj(vec![("conflict", s("B"))])];
    let layers: Vec<JsonValue> = order.iter().map(|&i| copy_value(&docs[i])).collect();
    let cfg = AppConfig::default();
    let merged = merge_runtime_config(&layers, &cfg.settings.clash, false, &obj(vec![("external-ui", s("ui"))]));
    assert_eq!(text(get(&merged, "conflict")), Some("A".to_string()));
}

#[test]
fn merge_injects_tun_enable() {
    let mut cfg = AppConfig::default();
    cfg.proxy_status.tun = true;
    let merged = merge_runtime_config(&vec![], &cfg.settings.clash, cfg.proxy_status.tun, &obj(vec![("external-ui", s("ui"))]));
    let tun = get(&merged, "tun").unwrap();
    assert!(matches!(get(tun, "enable"), Some(JsonValue::Bool(true))));
}

#[test]
fn removes_null_proxy_ports_after_merge() {
    let mut cfg = AppConfig::default();
    cfg.settings.clash.port = None;
    cfg.settings.clash.socks_port = None;
    cfg.settings.clash.mixed_port = None;
    let merged = merge_runtime_config(&vec![], &cfg.settings.clash, false, &obj(vec![("external-ui", s("ui"))]));
    assert!(get(&merged, "port").is_none());
    assert!(get(&merged, "socks-port").is_none());
    assert!(get(&merged, "mixed-port").is_none());
}

#[test]
fn disabled_entries_are_skipped_and_ties_keep_list_order() {
    let configs = vec![config("a", false), config("b", true), config("c", true)];
    assert_eq!(enabled_config_indices(&configs), vec![1, 2]);
    let overrides = vec![
        override_entry("x", true, 3),
        override_entry("y", false, 9),
        override_entry("z", true, 3),
        override_entry("w", true, 7),
    ];
    assert_eq!(override_merge_order(&overrides), vec![3, 0, 2]);
}

#[test]
fn clash_settings_document_uses_written_names() {
    let cfg = AppConfig::default();
    let value = clash_settings_value(&cfg.settings.clash, false);
    assert_eq!(text(get(&value, "log-level")), Some("silent".to_string()));
    assert_eq!(text(get(&value, "bind-address")), Some("127.0.0.1".to_string()));
    assert_eq!(number(get(&value, "port")), Some("7890".to_string()));
    assert!(matches!(get(&value, "mixed-port"), Some(JsonValue::Null)));
    let tun = get(&value, "tun").unwrap();
    assert_eq!(text(get(tun, "stack")), Some("gvisor".to_string()));
    assert_eq!(number(get(tun, "mtu")), Some("9000".to_string()));
    assert!(matches!(get(tun, "enable"), Some(JsonValue::Bool(false))));
    assert_eq!(texts(get(tun, "route-exclude-address").unwrap()).len(), 6);
}

#[test]
fn fixed_document_wins_over_settings() {
    let cfg = AppConfig::default();
    let fixed = obj(vec![("log-level", s("info")), ("port", JsonValue::Null)]);
    let merged = merge_runtime_config(&vec![], &cfg.settings.clash, false, &fixed);
    assert_eq!(text(get(&merged, "log-level")), Some("info".to_string()));
    assert!(get(&merged, "port").is_none());
}

#[test]
fn replacement_comes_before_append_in_one_document() {
    let mut base = obj(vec![("list", arr(vec![s("old")]))]);
    deep_merge(&mut base, &obj(vec![("list::$", arr(vec![s("b")])), ("list", arr(vec![s("a")]))]));
    assert_eq!(texts(get(&base, "list").unwrap()), vec!["a", "b"]);
    assert!(get(&base, "list::$").is_none());
}

#[test]
fn nested_instructions_apply_in_new_objects() {
    let mut base = obj(vec![]);
    deep_merge(&mut base, &obj(vec![("a", obj(vec![("l::$", arr(vec![n("1")]))]))]));
    let a = get(&base, "a").expect("a");
    assert!(get(a, "l::$").is_none());
    assert_eq!(number(get(a, "l").and_then(|v| match v { JsonValue::Array(items) => items.first(), _ => None })), Some("1".to_string()));

    let mut base = obj(vec![("a", s("scalar"))]);
    deep_merge(&mut base, &obj(vec![("a", obj(vec![("x::^", arr(vec![s("y")]))]))]));
    let a = get(&base, "a").expect("a");
    assert_eq!(texts(get(a, "x").expect("x")), vec!["y"]);
    assert!(get(a, "x::^").is_none());

    let mut base = obj(vec![("a", obj(vec![("list", arr(vec![s("x")]))]))]);
    deep_merge(&mut base, &obj(vec![("a", obj(vec![("list::$", arr(vec![s("y")]))]))]));
    let a = get(&base, "a").expect("a");
    assert_eq!(texts(get(a, "list").expect("list")), vec!["x", "y"]);
    assert!(get(a, "list::$").is_none());
}

#[test]
fn runtime_config_text_reads_merges_and_writes() {
    let settings = clash_ui::app::config::ClashSettings::default();
    let layers = vec![
        ("解析配置 a.yaml 失败".to_string(), "list: [x]\nnested:\n  keep: 1\n".to_string()),
        ("解析覆盖 b.yaml 失败".to_string(), "list::$: [y]\nnested:\n  items::^: [z]\n".to_string()),
    ];
    let fixed = ("解析固定配置失败".to_string(), "mode: rule\n".to_string());
    let text = runtime_config_text(&layers, &settings, false, &fixed).expect("merged text");
    assert!(text.contains("list"));
    assert!(text.contains("items"));
    assert!(!text.contains("list::") && !text.contains("items::"));
    assert!(text.contains("mode: rule"));

    let bad = vec![("解析配置 bad.yaml 失败".to_string(), "a: [".to_string())];
    match runtime_config_text(&bad, &settings, false, &fixed) {
        Err(CoreError::Parse(context, _)) => assert_eq!(context, "解析配置 bad.yaml 失败"),
        other => panic!("unexpected {other:?}"),
    }
    let broken_fixed = ("解析固定配置失败".to_string(), "a: [".to_string());
    match runtime_config_text(&layers, &settings, false, &broken_fixed) {
        Err(CoreError::Parse(context, _)) => assert_eq!(context, "解析固定配置失败"),
        other => panic!("unexpected {other:?}"),
    }
}
