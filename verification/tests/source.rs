use clash_ui::controller::source::yaml_verdict;
use clash_ui::controller::source::{safe_internal_path, resolve_directory, join_path, is_unsafe_path, relative_internal_path};
use clash_ui::constants::{CONFIGS_DIR, OVERRIDES_DIR};
use clash_ui::controller::source::{check_source_form, copy_file_name};
use clash_ui::app::config::SourceType;
use clash_ui::controller::source::{
    ensure_unique_source_uri, fallback_name, parse_source_type, safe_file_name, source_type_name,
    validate_yaml,
};

#[test]
fn keeps_name_and_filename_fallback_stable() {
    assert_eq!(fallback_name("C:\\configs\\demo.yaml"), "demo.yaml");
    assert_eq!(
        fallback_name("https://example.com/a/demo.yaml?x=1"),
        "demo.yaml"
    );
    assert_eq!(safe_file_name("../../secret"), "secret.yaml");
}

#[test]
fn requires_source_content_object() {
    assert!(validate_yaml("foo: bar\n").is_ok());
    assert!(validate_yaml("\n").is_err());
    assert!(validate_yaml("- value\n").is_err());
}

#[test]
fn rejects_duplicate_source_uri_in_same_page() {
    let entries = [("configs/one.yaml", " https://example.com/shared.yaml ")];
    assert!(ensure_unique_source_uri(&entries, "", "https://example.com/shared.yaml", "配置").is_err());
}

#[test]
fn allows_same_source_uri_in_different_pages() {
    let configs = [("configs/one.yaml", "https://example.com/shared.yaml")];
    let overrides = [("overrides/one.yaml", "https://example.com/other.yaml")];
    assert!(ensure_unique_source_uri(&configs, "", overrides[0].1, "配置").is_ok());
    assert!(ensure_unique_source_uri(&overrides, "", configs[0].1, "覆写").is_ok());
}

#[test]
fn allows_editing_current_source_uri() {
    let entries = [("configs/one.yaml", "https://example.com/shared.yaml")];
    assert!(ensure_unique_source_uri(
        &entries,
        "configs/one.yaml",
        " https://example.com/shared.yaml ",
        "配置"
    )
    .is_ok());
}

#[test]
fn rejects_editing_to_another_entry_source_uri() {
    let entries = [
        ("configs/one.yaml", "https://example.com/one.yaml"),
        ("configs/two.yaml", "https://example.com/two.yaml"),
    ];
    assert!(ensure_unique_source_uri(
        &entries,
        "configs/one.yaml",
        " https://example.com/two.yaml ",
        "配置"
    )
    .is_err());
}

#[test]
fn duplicate_message_names_the_page() {
    let entries = [("configs/one.yaml", "x")];
    assert_eq!(ensure_unique_source_uri(&entries, "", "x", "配置"), Err("配置源地址已存在".to_string()));
}

#[test]
fn source_types_round_trip_through_their_names() {
    assert_eq!(parse_source_type("http"), Ok(SourceType::Http));
    assert_eq!(parse_source_type("file"), Ok(SourceType::File));
    assert!(parse_source_type("HTTP").is_err());
    assert_eq!(source_type_name(SourceType::Http), "http");
    assert_eq!(source_type_name(SourceType::File), "file");
}

#[test]
fn fallback_names_cover_edge_cases() {
    assert_eq!(fallback_name(""), "未命名配置");
    assert_eq!(fallback_name("https://example.com/dir/"), "dir");
    assert_eq!(fallback_name("https://example.com/a.yaml#frag"), "a.yaml");
    assert_eq!(fallback_name("  "), "未命名配置");
    assert_eq!(safe_file_name("https://example.com/订阅 配置"), "订阅_配置.yaml");
    assert_eq!(safe_file_name("https://example.com/.."), "source.yaml");
    assert_eq!(safe_file_name("https://example.com/a.yml"), "a.yml");
}

#[test]
fn yaml_errors_say_what_failed() {
    assert_eq!(validate_yaml("   \n"), Err("配置内容不能为空".to_string()));
    assert_eq!(validate_yaml("42\n"), Err("配置内容必须是 YAML 对象".to_string()));
    assert!(validate_yaml("a: [1, 2\n").unwrap_err().starts_with("YAML 解析失败："));
}

#[test]
fn copy_names_count_up_before_the_extension() {
    assert_eq!(copy_file_name("https://example.com/demo.yaml", 0), "demo.yaml");
    assert_eq!(copy_file_name("https://example.com/demo.yaml", 1), "demo-1.yaml");
    assert_eq!(copy_file_name("../../secret", 2), "secret-2.yaml");
    assert_eq!(copy_file_name("/tmp/.hidden", 1), ".hidden-1.yaml");
    assert_eq!(copy_file_name("a.b.c", 3), "a.b-3.c");
}

#[test]
fn source_form_checks_type_address_and_uniqueness() {
    use_check_source_form();
}

fn use_check_source_form() {
    let entries = vec![("configs/a.yaml", " https://a.example/a.yaml ")];
    assert_eq!(
        check_source_form("http", "  https://b.example  ", &entries, "", "配置"),
        Ok((SourceType::Http, "https://b.example".to_string()))
    );
    assert_eq!(check_source_form("ftp", "x", &entries, "", "配置"), Err("配置类型必须是 http 或 file".to_string()));
    assert_eq!(check_source_form("file", "   ", &entries, "", "配置"), Err("源地址不能为空".to_string()));
    assert_eq!(
        check_source_form("http", "https://a.example/a.yaml", &entries, "", "覆写"),
        Err("覆写源地址已存在".to_string())
    );
    assert!(check_source_form("http", "https://a.example/a.yaml", &entries, "configs/a.yaml", "配置").is_ok());
}

#[test]
fn isolates_internal_paths_and_rejects_traversal() {
    let root = "C:\\clash-ui";
    assert!(safe_internal_path(root, CONFIGS_DIR, &format!("{CONFIGS_DIR}/demo.yaml")).is_ok());
    assert!(
        safe_internal_path(root, CONFIGS_DIR, &format!("{CONFIGS_DIR}/../app.yaml")).is_err()
    );
    assert!(safe_internal_path(root, CONFIGS_DIR, "C:\\other.yaml").is_err());
    assert!(
        safe_internal_path(root, CONFIGS_DIR, &format!("{OVERRIDES_DIR}/demo.yaml")).is_err()
    );
    assert!(safe_internal_path(root, CONFIGS_DIR, CONFIGS_DIR).is_err());
    assert!(safe_internal_path(root, CONFIGS_DIR, &format!("{CONFIGS_DIR}/")).is_err());
    assert!(safe_internal_path(root, CONFIGS_DIR, &format!("{CONFIGS_DIR}/.")).is_err());
}

#[test]
fn internal_paths_join_root_and_name_their_errors() {
    assert_eq!(
        safe_internal_path("/srv/app", "data/configs", "data/configs/a.yaml"),
        Ok("/srv/app/data/configs/a.yaml".to_string())
    );
    assert_eq!(
        safe_internal_path("/srv/app/", "data/configs", "data/configs/./sub/a.yaml"),
        Ok("/srv/app/data/configs/./sub/a.yaml".to_string())
    );
    assert_eq!(
        safe_internal_path("/srv/app", "data/configs", "/etc/passwd"),
        Err("内部文件路径不安全".to_string())
    );
    assert_eq!(
        safe_internal_path("/srv/app", "data/configs", "./data/configs/a.yaml"),
        Err("内部文件路径不安全".to_string())
    );
    assert_eq!(
        safe_internal_path("/srv/app", "data/configs", "data/overrides/a.yaml"),
        Err("内部文件路径必须位于 /srv/app/data/configs 下".to_string())
    );
    assert_eq!(
        safe_internal_path("/srv/app", "../data", "data/a.yaml"),
        Err("内部目录路径不安全".to_string())
    );
    assert_eq!(resolve_directory("/srv/app", ""), Err("内部目录必须位于运行时根目录下".to_string()));
    assert_eq!(resolve_directory("/srv/app", "a//./"), Ok("/srv/app/a//./".to_string()));
    assert_eq!(join_path("", "x/y"), "x/y");
    assert!(is_unsafe_path("."));
    assert!(is_unsafe_path("a/../b"));
    assert!(!is_unsafe_path("a/.b/..c"));
}

#[test]
fn yaml_verdict_reports_root_shape_and_parse_errors() {
    assert_eq!(yaml_verdict(Ok(true)), Ok(()));
    assert_eq!(yaml_verdict(Ok(false)), Err("配置内容必须是 YAML 对象".to_string()));
    assert_eq!(yaml_verdict(Err("bad".to_string())), Err("YAML 解析失败：bad".to_string()));
    assert!(validate_yaml("a: [").unwrap_err().starts_with("YAML 解析失败："));
}

#[test]
fn windows_separators_and_drives_are_refused() {
    assert_eq!(
        safe_internal_path("/srv/app", "data/configs", "data/configs/..\\x.yaml"),
        Err("内部文件路径不安全".to_string())
    );
    assert_eq!(safe_internal_path("/srv/app", "data/configs", "C:\\x.yaml"), Err("内部文件路径不安全".to_string()));
    assert_eq!(safe_internal_path("/srv/app", "data/configs", "\\x.yaml"), Err("内部文件路径不安全".to_string()));
    assert_eq!(safe_internal_path("/srv/app", "data/configs", ".\\x.yaml"), Err("内部文件路径不安全".to_string()));
    assert_eq!(
        safe_internal_path("/srv/app", "data/configs", "data\\configs\\a.yaml"),
        Ok("/srv/app/data\\configs\\a.yaml".to_string())
    );
}

#[test]
fn stored_paths_drop_the_root_and_use_slashes() {
    assert_eq!(relative_internal_path("/srv/app", "/srv/app/data/configs/a.yaml"), "data/configs/a.yaml");
    assert_eq!(relative_internal_path("C:\\clash", "C:\\clash/data\\configs\\a.yaml"), "data/configs/a.yaml");
    assert_eq!(relative_internal_path("/srv/app/", "/srv/app/x.yaml"), "x.yaml");
    assert_eq!(relative_internal_path("/srv/app", "/other/x.yaml"), "/other/x.yaml");
    assert_eq!(relative_internal_path("/srv/app", "/srv/apple/x.yaml"), "/srv/apple/x.yaml");
}

#[test]
fn stored_paths_compare_whole_components() {
    assert_eq!(relative_internal_path("/srv/app", "/srv/app"), "");
    assert_eq!(relative_internal_path("/srv/app", "/srv/app/"), "");
    assert_eq!(relative_internal_path("/srv/app", "/srv/app//data/./x.yaml/"), "data/./x.yaml");
    assert_eq!(relative_internal_path("/srv/./app", "/srv//app/x.yaml"), "x.yaml");
    assert_eq!(relative_internal_path("/", "//x.yaml"), "x.yaml");
    assert_eq!(relative_internal_path("/srv/app", "/other//x/"), "/other//x/");
    assert_eq!(relative_internal_path("srv", "/srv/x"), "/srv/x");
    assert_eq!(relative_internal_path("", "/srv/x/."), "/srv/x");
    assert_eq!(relative_internal_path(".", "./a/b"), "a/b");
    assert_eq!(relative_internal_path("C:\\clash", "C:\\clash\\data\\a.yaml"), "data/a.yaml");
    assert_eq!(relative_internal_path("C:\\clash\\", "C:\\clash\\x.yaml"), "x.yaml");
    assert_eq!(relative_internal_path("C:\\clash", "C:\\clash"), "");
    assert_eq!(relative_internal_path("C:\\clash", "D:\\clash\\x.yaml"), "D:/clash/x.yaml");
}

#[test]
fn joined_internal_paths_are_stored_as_they_were_joined() {
    for root in ["", "/", "/srv/app", "/srv/app/", "relative/root", "."] {
        let joined = join_path(root, "data/configs/a.yaml");
        assert_eq!(relative_internal_path(root, &joined), "data/configs/a.yaml");
        let joined = join_path(root, "data\\a.yaml");
        assert_eq!(relative_internal_path(root, &joined), "data/a.yaml");
    }
}
