use clash_ui::app::config::{OverrideEntry, SourceType};
use clash_ui::controller::overrides::{
    build_entry, display_name, enabled_order_changed, enabled_paths, next_sort, normalize_entries,
    override_rows, remove_and_normalize, reorder_snapshot, sorted_entries, toggle_snapshot,
};

fn entry(path: &str, sort: i64) -> OverrideEntry {
    OverrideEntry {
        name: String::new(),
        enabled: false,
        source_type: SourceType::File,
        source_uri: format!("{path}.yaml"),
        sort,
        path: path.to_string(),
    }
}

fn copy(e: &OverrideEntry) -> OverrideEntry {
    e.duplicate()
}

#[test]
fn shows_overrides_stably_by_ascending_sort() {
    let entries = vec![entry("first", 2), entry("second", 1), entry("third", 1)];
    let sorted = sorted_entries(&entries);
    assert_eq!(sorted[0].path, "second");
    assert_eq!(sorted[1].path, "third");
    assert_eq!(sorted[2].path, "first");
    assert_eq!(display_name(&sorted[0]), "second.yaml");
    assert_eq!(override_rows(&entries)[0].sort, 1);
}

#[test]
fn shows_enabled_overrides_before_disabled_overrides() {
    let disabled = entry("disabled", 0);
    let mut enabled = entry("enabled", 9);
    enabled.enabled = true;
    let mut same_sort = entry("same-sort", 9);
    same_sort.enabled = true;

    let sorted = sorted_entries(&[copy(&disabled), enabled, same_sort]);
    assert_eq!(sorted[0].path, "enabled");
    assert_eq!(sorted[1].path, "same-sort");
    assert_eq!(sorted[2].path, "disabled");

    let mut other = entry("other", 0);
    other.enabled = true;
    let candidate = entry("candidate", 9);
    let (toggled, _) = toggle_snapshot(&[candidate, other], "candidate").unwrap();
    assert_eq!(toggled[0].path, "other");
    assert_eq!(toggled[1].path, "candidate");
    assert_eq!(toggled[0].sort, 0);
    assert_eq!(toggled[1].sort, 1);
}

#[test]
fn toggling_one_override_does_not_affect_others() {
    let mut first = entry("first", 0);
    first.enabled = true;
    let second = entry("second", 1);
    let (updated, enabled) = toggle_snapshot(&[first, second], "second").unwrap();
    assert!(enabled);
    assert!(updated[0].enabled);
    assert!(updated[1].enabled);
}

#[test]
fn normalizes_sort_after_reordering() {
    let entries = vec![entry("first", 9), entry("second", 9), entry("third", 2)];
    let reordered = reorder_snapshot(&entries, "first", 2).unwrap().unwrap();
    assert_eq!(
        reordered
            .iter()
            .map(|entry| entry.path.as_str())
            .collect::<Vec<_>>(),
        vec!["third", "second", "first"]
    );
    assert_eq!(
        reordered.iter().map(|entry| entry.sort).collect::<Vec<_>>(),
        vec![0, 1, 2]
    );
}

#[test]
fn disabled_only_reordering_does_not_change_enabled_order() {
    let mut enabled = entry("enabled", 0);
    enabled.enabled = true;
    let entries = vec![enabled, entry("disabled-a", 1), entry("disabled-b", 1)];
    let reordered = reorder_snapshot(&entries, "disabled-a", 2)
        .unwrap()
        .unwrap();
    assert!(!enabled_order_changed(&entries, &reordered));
}

#[test]
fn enabled_reordering_changes_enabled_order() {
    let mut first = entry("first", 0);
    first.enabled = true;
    let mut second = entry("second", 0);
    second.enabled = true;
    let entries = vec![first, second, entry("disabled", 2)];
    let reordered = reorder_snapshot(&entries, "first", 1).unwrap().unwrap();
    assert!(enabled_order_changed(&entries, &reordered));
}

#[test]
fn appends_new_sort_to_visual_end() {
    let entries = vec![entry("first", -2), entry("second", 7)];
    assert_eq!(next_sort(&entries), 8);
    assert_eq!(next_sort(&[]), 0);
}

#[test]
fn normalizes_sort_after_deletion() {
    let mut removed = entry("removed", 8);
    removed.enabled = true;
    let entries = vec![removed, entry("first", 20), entry("second", 3)];
    let (removed, remaining) = remove_and_normalize(&entries, "removed").unwrap();
    assert!(removed.enabled);
    assert_eq!(remaining[0].path, "second");
    assert_eq!(remaining[0].sort, 0);
    assert_eq!(remaining[1].sort, 1);
}

#[test]
fn editing_preserves_enabled_sort_and_path_identity() {
    let mut existing = entry("stable", 6);
    existing.enabled = true;
    let updated = build_entry(
        Some(&existing),
        "新名称",
        SourceType::Http,
        "https://example.com/new.yaml",
        existing.path.clone(),
        99,
    );
    assert_eq!(updated.name, "新名称");
    assert_eq!(updated.source_type, SourceType::Http);
    assert_eq!(updated.source_uri, "https://example.com/new.yaml");
    assert!(updated.enabled);
    assert_eq!(updated.sort, 6);
    assert_eq!(updated.path, "stable");
}

#[test]
fn unknown_paths_and_targets_are_refused() {
    let entries = vec![entry("a", 0), entry("b", 1)];
    assert_eq!(toggle_snapshot(&entries, "x").unwrap_err(), "未找到要切换的覆写");
    assert_eq!(remove_and_normalize(&entries, "x").unwrap_err(), "未找到要删除的覆写");
    assert_eq!(reorder_snapshot(&entries, "x", 0).unwrap_err(), "未找到要重排的覆写");
    assert_eq!(reorder_snapshot(&entries, "a", 2).unwrap_err(), "覆写目标位置无效");
    assert_eq!(reorder_snapshot(&entries, "a", -1).unwrap_err(), "覆写目标位置无效");
    assert!(reorder_snapshot(&entries, "a", 0).unwrap().is_none());
}

#[test]
fn enabled_paths_follow_page_order() {
    let mut a = entry("a", 5);
    a.enabled = true;
    let mut b = entry("b", 1);
    b.enabled = true;
    let c = entry("c", 0);
    let paths = enabled_paths(&[a, b, c]);
    assert_eq!(paths, vec!["b".to_string(), "a".to_string()]);
    let normalized = normalize_entries(&[entry("x", 10), entry("y", -3)]);
    assert_eq!(normalized.iter().map(|e| (e.path.as_str(), e.sort)).collect::<Vec<_>>(), vec![("y", 0), ("x", 1)]);
    let fresh = build_entry(None, "  ", SourceType::File, "https://example.com/sub.yaml", "p".to_string(), 4);
    assert_eq!(fresh.name, "sub.yaml");
    assert!(!fresh.enabled);
    assert_eq!(fresh.sort, 4);
    assert_eq!(next_sort(&[entry("only", -5)]), -4);
}
