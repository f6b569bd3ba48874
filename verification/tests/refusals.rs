use weasel_vision::commands::backup::{
    backup_not_found, category_plan, restore_error_message, safe_backup_name, validate_backup_id, validate_file_name,
};
use weasel_vision::commands::dict::{
    list_snapshots, validate_dict_id, FileMeta, validate_export_path, validate_snapshot_apply, validate_snapshot_delete,
};
use weasel_vision::commands::keybinding::{save_keybindings, KeyBinding};
use weasel_vision::commands::punctuation::save_punctuation;
use weasel_vision::commands::schema::{check_yaml_extension, import_schema, save_schemas, validate_schema_path};
use weasel_vision::commands::settings::{save_general_settings, validate_open_dir_path, GeneralSettings};
use weasel_vision::commands::style::{import_color_scheme, save_selected_schemes, save_style, validate_scheme_name};
use weasel_vision::commands::sync::{
    check_sync_configured, check_sync_throttle, get_sync_settings, save_sync_settings, validate_installation_id,
    SyncSettings,
};
use weasel_vision::rime::config::{PlatformDirs, RimeConfig, TargetOs};
use weasel_vision::rime::error::{IoKind, RimeError};
use weasel_vision::rime::style::RimeStyle;
use weasel_vision::rime::yaml::{YamlMap, YamlValue};

fn s(x: &str) -> String {
    x.to_string()
}

fn err_of(r: Result<(), String>) -> String {
    r.unwrap_err()
}

fn patch_with(k: &str, v: YamlValue) -> YamlMap {
    let mut p = YamlMap::new();
    p.insert(s(k), v);
    p
}

#[test]
fn identifiers_are_checked() {
    assert_eq!(err_of(validate_backup_id("")), "Invalid backup ID");
    assert_eq!(err_of(validate_backup_id(&"a".repeat(65))), "Invalid backup ID");
    assert_eq!(err_of(validate_backup_id("a b")), "Backup ID contains invalid characters");
    assert!(validate_backup_id("20240101_120000-full").is_ok());
    assert_eq!(err_of(validate_dict_id("")), "Invalid dictionary ID");
    assert_eq!(err_of(validate_dict_id("luna/../x")), "Dictionary ID contains invalid characters");
    assert!(validate_dict_id("luna_pinyin").is_ok());
    assert_eq!(err_of(validate_installation_id("")), "Invalid installation ID");
    assert_eq!(err_of(validate_installation_id("é")), "Installation ID contains invalid characters");
    assert!(validate_installation_id("b7f1c0de-0000-4000-8000-000000000000").is_ok());
}

#[test]
fn paths_are_checked() {
    assert_eq!(err_of(validate_file_name("/etc/passwd")), "文件名无效");
    assert_eq!(err_of(validate_file_name("\\x")), "文件名无效");
    assert_eq!(err_of(validate_file_name(".")), "文件名无效");
    assert!(validate_file_name("default.custom.yaml").is_ok());
    assert_eq!(err_of(validate_file_name("../x")), "Invalid file name: path traversal not allowed");
    assert_eq!(err_of(validate_file_name("a/../../b")), "Invalid file name: path traversal not allowed");
    assert_eq!(err_of(validate_export_path("")), "Output path is empty");
    assert_eq!(err_of(validate_export_path("/home/u/../x")), "Output path contains path traversal");
    assert!(validate_export_path("/home/u/out.txt").is_ok());
    assert_eq!(err_of(validate_schema_path("")), "File path is empty");
    assert_eq!(err_of(validate_schema_path("a/../b.yaml")), "Invalid file path: path traversal not allowed");
    assert_eq!(
        err_of(check_yaml_extension("x.txt")),
        "Invalid file extension: only .yaml and .yml are supported"
    );
    assert!(check_yaml_extension("x.yml").is_ok());
    assert!(check_yaml_extension("x.yaml").is_ok());
    assert_eq!(err_of(validate_open_dir_path("")), "路径不能为空");
    assert_eq!(err_of(validate_open_dir_path("-rf")), "无效的路径格式");
    assert_eq!(err_of(validate_open_dir_path("/a/../b")), "路径包含无效字符");
    assert_eq!(err_of(validate_open_dir_path("/a;rm")), "路径包含无效字符");
    assert!(validate_open_dir_path("/Users/me/Library/Rime (copy)").is_ok());
    assert_eq!(err_of(validate_snapshot_delete("../x.txt")), "Invalid snapshot file name");
    assert_eq!(err_of(validate_snapshot_delete("/x.txt")), "Invalid snapshot file name");
    assert!(validate_snapshot_delete("luna.userdb.txt").is_ok());
    assert_eq!(
        err_of(validate_snapshot_apply("a/../b")),
        "Invalid file name: path traversal not allowed"
    );
}

#[test]
fn scheme_names_are_checked() {
    assert_eq!(err_of(validate_scheme_name("")), "配色方案名称长度无效");
    assert_eq!(err_of(validate_scheme_name(&"a".repeat(65))), "配色方案名称长度无效");
    // 22 three-byte characters are 66 bytes.
    assert_eq!(err_of(validate_scheme_name(&"深".repeat(22))), "配色方案名称长度无效");
    assert_eq!(err_of(validate_scheme_name("a/b")), "配色方案名称包含无效字符");
    assert_eq!(err_of(validate_scheme_name("a.b")), "配色方案名称包含无效字符");
    assert!(validate_scheme_name("深色 Mode_2-b").is_ok());
}

#[test]
fn sync_refusals() {
    assert_eq!(err_of(check_sync_throttle(Some(1))), "操作过于频繁，请 3 秒后再试");
    assert!(check_sync_throttle(Some(3)).is_ok());
    assert!(check_sync_throttle(None).is_ok());
    let off = SyncSettings { sync_dir: None, installation_id: s("x"), sync_user_dict: true, sync_config: true };
    assert_eq!(err_of(check_sync_configured(&off)), "请先在「同步设置」中配置同步目录");
    let mut doc = YamlMap::new();
    let bad = SyncSettings { sync_dir: None, installation_id: s("a b"), sync_user_dict: true, sync_config: true };
    assert_eq!(err_of(save_sync_settings(&mut doc, bad)), "Installation ID contains invalid characters");
    assert_eq!(doc.len(), 0);
}

#[test]
fn a_fresh_installation_gets_a_random_uuid() {
    let a = get_sync_settings(&YamlMap::new());
    let b = get_sync_settings(&YamlMap::new());
    for id in [&a.installation_id, &b.installation_id] {
        assert_eq!(id.len(), 36);
        assert_eq!(id.as_bytes()[14], b'4');
        assert!(id.chars().all(|c| c == '-' || c.is_ascii_hexdigit() && !c.is_ascii_uppercase()));
    }
    assert_ne!(a.installation_id, b.installation_id);
}

#[test]
fn sections_that_are_no_mapping_are_refused() {
    let settings = GeneralSettings::default();
    let mut p = patch_with("menu", YamlValue::Str(s("x")));
    assert_eq!(err_of(save_general_settings(&mut p, settings)), "menu is not a mapping");
    assert_eq!(p.len(), 1);
    let mut p = patch_with("switcher", YamlValue::Bool(true));
    assert_eq!(err_of(save_general_settings(&mut p, GeneralSettings::default())), "switcher is not a mapping");
    assert_eq!(p.len(), 1);
    let mut p = patch_with("key_binder", YamlValue::Null);
    let b = vec![KeyBinding { when: s("always"), accept: s("F4"), send: s(""), toggle: s(""), select: s("") }];
    assert_eq!(err_of(save_keybindings(&mut p, &b)), "key_binder is not a mapping");
    let mut p = patch_with("punctuator", YamlValue::Sequence(vec![]));
    assert_eq!(err_of(save_punctuation(&mut p, &vec![], &vec![])), "punctuator is not a mapping");
    let mut p = patch_with("menu", YamlValue::Str(s("x")));
    assert_eq!(err_of(save_schemas(&mut p, &vec![], Some(5))), "menu is not a mapping");
    assert!(save_schemas(&mut p, &vec![], None).is_ok());
    let mut p = patch_with("style", YamlValue::Str(s("x")));
    assert_eq!(err_of(save_style(&mut p, RimeStyle::default_for(TargetOs::MacOs))), "style is not a mapping");
    assert_eq!(err_of(save_selected_schemes(&mut p, s("a"), s("b"))), "style is not a mapping");
}

#[test]
fn imports_without_content_are_refused() {
    let mut p = YamlMap::new();
    let doc = YamlValue::Mapping(patch_with("name", YamlValue::Str(s("x"))));
    assert_eq!(err_of(import_schema(&mut p, &doc)), "No schema_id found in file");
    assert_eq!(err_of(import_color_scheme(&mut p, &doc)), "No color schemes found in file");
    assert_eq!(p.len(), 0);
    let doc = YamlValue::Mapping(patch_with("schema_id", YamlValue::Str(s("my_ime"))));
    assert!(import_schema(&mut p, &doc).is_ok());
    let list = match p.get(&s("schema_list")) {
        Some(YamlValue::Sequence(v)) => v.len(),
        _ => 0,
    };
    assert_eq!(list, 1);
    // Importing it again adds nothing.
    assert!(import_schema(&mut p, &doc).is_ok());
    let list = match p.get(&s("schema_list")) {
        Some(YamlValue::Sequence(v)) => v.len(),
        _ => 0,
    };
    assert_eq!(list, 1);
}

#[test]
fn backup_messages() {
    assert_eq!(backup_not_found("x1"), "Backup 'x1' not found");
    assert_eq!(
        restore_error_message(&vec![s("a failed"), s("b failed")]),
        "Restore completed with errors: a failed; b failed"
    );
    assert_eq!(safe_backup_name("build/weasel.yaml"), "build_weasel.yaml");
    assert_eq!(safe_backup_name("a\\b"), "a_b");
    let dirs = PlatformDirs {
        home_dir: Some(s("/home/me")),
        current_dir: Some(s("/cwd")),
        config_dir: Some(s("/home/me/.config")),
        data_dir: Some(s("/home/me/.local/share")),
    };
    let cfg = RimeConfig::detect(TargetOs::MacOs, &dirs, false);
    match category_plan("bogus", &cfg, TargetOs::MacOs) {
        Err(m) => assert_eq!(m, "Unknown backup category: bogus"),
        Ok(_) => panic!("expected a refusal"),
    }
    assert!(category_plan("full", &cfg, TargetOs::MacOs).is_ok());
}

#[test]
fn configuration_paths_are_joined() {
    let dirs = PlatformDirs {
        home_dir: Some(s("/home/me")),
        current_dir: Some(s("/cwd")),
        config_dir: Some(s("/home/me/.config")),
        data_dir: None,
    };
    let cfg = RimeConfig::detect(TargetOs::MacOs, &dirs, false);
    assert_eq!(cfg.user_dir, "/home/me/Library/Rime");
    assert_eq!(cfg.default_custom_path(), "/home/me/Library/Rime/default.custom.yaml");
    assert_eq!(cfg.style_custom_path(), "/home/me/Library/Rime/squirrel.custom.yaml");
    assert_eq!(cfg.schema_custom_path("luna_pinyin"), Some(s("/home/me/Library/Rime/luna_pinyin.custom.yaml")));
    assert_eq!(cfg.schema_custom_path("../x"), None);
}

#[test]
fn compiled_files_come_from_build_on_windows_only() {
    let mut cfg = RimeConfig {
        user_dir: s("u"),
        build_dir: Some(s("b")),
        style_file: s("squirrel.yaml"),
        style_custom: s("squirrel.custom.yaml"),
        default_yaml: s("default.yaml"),
        default_custom: s("default.custom.yaml"),
        os: TargetOs::MacOs,
    };
    assert_eq!(cfg.style_path(), "u/squirrel.yaml");
    assert_eq!(cfg.default_path(), "u/default.yaml");
    cfg.os = TargetOs::Windows;
    assert_eq!(cfg.style_path(), "b/squirrel.yaml");
    assert_eq!(cfg.default_path(), "b/default.yaml");
    cfg.build_dir = None;
    assert_eq!(cfg.style_path(), "u/squirrel.yaml");
}

#[test]
fn snapshot_listing_refuses_a_bad_dictionary_id() {
    let legacy = vec![FileMeta { name: s("luna.a.txt"), created_at: s("1"), size: 3 }];
    match list_snapshots("a/b", &vec![], &legacy, &vec![]) {
        Err(m) => assert_eq!(m, "Dictionary ID contains invalid characters"),
        Ok(_) => panic!("expected a refusal"),
    }
    assert!(matches!(list_snapshots("", &vec![], &legacy, &vec![]), Err(_)));
    let listed = list_snapshots("luna", &vec![], &legacy, &vec![]).unwrap();
    assert_eq!(listed.len(), 1);
    assert_eq!(listed[0].file_name, "luna.a.txt");
}

#[test]
fn error_messages() {
    assert_eq!(RimeError::Io(s("disk")).message(), "文件操作失败: disk");
    assert_eq!(RimeError::Parse(s("bad")).message(), "配置解析失败: bad");
    assert_eq!(RimeError::Config(s("c")).message(), "配置错误: c");
    assert_eq!(RimeError::Permission(s("p")).message(), "权限不足: p");
    assert_eq!(RimeError::InvalidPath(s("q")).message(), "路径无效: q");
    assert_eq!(RimeError::NotFound(s("n")).message(), "未找到: n");
    assert_eq!(RimeError::RateLimited(s("r")).message(), "操作过于频繁: r");
    assert_eq!(RimeError::Unknown(s("u")).message(), "未知错误: u");
    assert_eq!(RimeError::from_io(IoKind::NotFound, s("f")).message(), "未找到: f");
    assert_eq!(RimeError::from_io(IoKind::PermissionDenied, s("f")).message(), "权限不足: f");
    assert_eq!(RimeError::from_io(IoKind::Other, s("f")).message(), "文件操作失败: f");
}
