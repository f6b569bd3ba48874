use weasel_vision::commands::dict::{
    add_dict_entry, batch_delete_low_frequency, delete_entries, snapshot_entries, update_entry_frequency, DictEntryKey, NewDictEntry,
};
use weasel_vision::commands::grammar::{load_mount_config, mount_grammar, unmount_grammar};
use weasel_vision::commands::keybinding::{get_keybindings, save_keybindings, KeyBinding};
use weasel_vision::commands::punctuation::{
    get_punctuation, parse_punct_dict, save_punctuation, serialize_punct_rules, PunctRule,
};
use weasel_vision::commands::schema::{get_schemas, save_schemas};
use weasel_vision::commands::settings::{get_general_settings, save_general_settings, GeneralSettings};
use weasel_vision::commands::style::{delete_color_scheme, save_color_scheme};
use weasel_vision::commands::sync::{get_sync_settings, save_sync_settings, SyncSettings};
use weasel_vision::rime::backup::{is_timestamped_backup, timestamped_backup_name};
use weasel_vision::rime::color::RimeColor;
use weasel_vision::rime::color_scheme::RimeColorScheme;
use weasel_vision::rime::grammar::SchemaGrammarConfig;
use weasel_vision::rime::order::{sort_by_keys, SortKey};
use weasel_vision::rime::patch::{merge, remove_value, set_value, value_at};
use weasel_vision::rime::schema::RimeSchema;
use weasel_vision::rime::yaml::{YamlMap, YamlNumber, YamlValue};

fn s(x: &str) -> String {
    x.to_string()
}

fn text_of(v: Option<&YamlValue>) -> Option<String> {
    match v {
        Some(YamlValue::Str(t)) => Some(t.clone()),
        _ => None,
    }
}

fn mapping_of<'a>(v: Option<&'a YamlValue>) -> &'a YamlMap {
    match v {
        Some(YamlValue::Mapping(m)) => m,
        _ => panic!("expected a mapping"),
    }
}

#[test]
fn hex_round_trip_on_values() {
    for (r, g, b, a) in [(1u8, 2u8, 3u8, 4u8), (255, 128, 0, 255), (0, 0, 0, 0), (18, 52, 86, 255)] {
        let c = RimeColor::new(r, g, b, a);
        let back = RimeColor::from_hex(&c.to_hex()).unwrap();
        assert_eq!(back, c);
    }
}

#[test]
fn color_scheme_reads_back_on_values() {
    let mut sch = RimeColorScheme::empty();
    sch.name = s("ocean");
    sch.author = s("someone");
    sch.color_space = s("display_p3");
    sch.back_color = Some(RimeColor::new(10, 20, 30, 255));
    sch.candidate_label_color = Some(RimeColor::new(1, 2, 3, 128));
    sch.translucency = Some(true);
    sch.shadow_size = Some(YamlNumber::PosInt(4));
    sch.font_face = Some(s("Menlo"));
    let dict = sch.to_dict();
    let m = match &dict {
        YamlValue::Mapping(m) => m,
        _ => panic!("expected a mapping"),
    };
    let back = RimeColorScheme::from_dict(s("ocean"), m);
    assert_eq!(back.name, "ocean");
    assert_eq!(back.author, "someone");
    assert_eq!(back.color_space, "display_p3");
    assert_eq!(back.back_color, Some(RimeColor::new(10, 20, 30, 255)));
    assert_eq!(back.candidate_label_color, Some(RimeColor::new(1, 2, 3, 128)));
    assert_eq!(back.border_color, None);
    assert_eq!(back.translucency, Some(true));
    assert_eq!(back.mutual_exclusive, None);
    assert_eq!(back.shadow_size, Some(YamlNumber::PosInt(4)));
    assert_eq!(back.font_face, Some(s("Menlo")));
    assert_eq!(back.label_font_face, None);
}

#[test]
fn saved_settings_read_back_on_values() {
    let mut patch = YamlMap::new();
    let settings = GeneralSettings {
        page_size: 9,
        enable_encoder: false,
        enable_sentence: true,
        enable_user_dict: false,
        encode_commit_history: true,
        switcher_caption: s("[switch]"),
        switcher_hotkeys: s("Control+grave , F4"),
        switcher_fold_options: false,
        switcher_abbreviate_options: true,
        caps_lock_action: s("clear"),
        shift_left_action: s("noop"),
        shift_right_action: s("commit_text"),
        good_old_caps_lock: false,
    };
    assert!(save_general_settings(&mut patch, settings).is_ok());
    let back = get_general_settings(&patch);
    assert_eq!(back.page_size, 9);
    assert!(!back.enable_encoder);
    assert!(back.enable_sentence);
    assert!(!back.enable_user_dict);
    assert!(back.encode_commit_history);
    assert_eq!(back.switcher_caption, "[switch]");
    assert_eq!(back.switcher_hotkeys, "Control+grave, F4");
    assert!(!back.switcher_fold_options);
    assert!(back.switcher_abbreviate_options);
    assert_eq!(back.caps_lock_action, "clear");
    assert_eq!(back.shift_left_action, "noop");
    assert_eq!(back.shift_right_action, "commit_text");
    assert!(!back.good_old_caps_lock);
    // Read from the patch merged over a base that sets other values.
    let mut base = YamlMap::new();
    let mut menu = YamlMap::new();
    menu.insert(s("page_size"), YamlValue::Number(YamlNumber::PosInt(5)));
    menu.insert(s("alternative_select_keys"), YamlValue::Str(s("123")));
    base.insert(s("menu"), YamlValue::Mapping(menu));
    let mut sk = YamlMap::new();
    sk.insert(s("Caps_Lock"), YamlValue::Str(s("inline_ascii")));
    sk.insert(s("Control_L"), YamlValue::Str(s("noop")));
    let mut ac = YamlMap::new();
    ac.insert(s("switch_key"), YamlValue::Mapping(sk));
    base.insert(s("ascii_composer"), YamlValue::Mapping(ac));
    let merged_doc = merge(&base, &patch);
    let back2 = get_general_settings(&merged_doc);
    assert_eq!(back2.page_size, 9);
    assert_eq!(back2.caps_lock_action, "clear");
    assert_eq!(back2.switcher_hotkeys, "Control+grave, F4");
    assert!(!back2.good_old_caps_lock);
    let menu2 = mapping_of(merged_doc.get(&s("menu")));
    assert_eq!(text_of(menu2.get(&s("alternative_select_keys"))), Some(s("123")));
}

#[test]
fn saved_keybindings_read_back_on_values() {
    let mut patch = YamlMap::new();
    let b = vec![
        KeyBinding { when: s("composing"), accept: s("Tab"), send: s("Page_Down"), toggle: s(""), select: s("") },
        KeyBinding { when: s("always"), accept: s("Control+period"), send: s(""), toggle: s("full_shape"), select: s("") },
    ];
    assert!(save_keybindings(&mut patch, &b).is_ok());
    let back = get_keybindings(&patch);
    assert_eq!(back.len(), 2);
    assert_eq!(back[0].when, "composing");
    assert_eq!(back[0].accept, "Tab");
    assert_eq!(back[0].send, "Page_Down");
    assert_eq!(back[1].toggle, "full_shape");
    assert_eq!(back[1].accept, "Control+period");
}

#[test]
fn saved_punctuation_reads_back_on_values() {
    let mut patch = YamlMap::new();
    let half = vec![
        PunctRule { key: s("/"), commit: s(""), pair: vec![], list: vec![s("/"), s("÷")] },
        PunctRule { key: s(","), commit: s("，"), pair: vec![s("x")], list: vec![] },
        PunctRule { key: s("'"), commit: s(""), pair: vec![s("‘"), s("’")], list: vec![] },
        PunctRule { key: s("."), commit: s(""), pair: vec![], list: vec![] },
    ];
    let full = vec![PunctRule { key: s("a"), commit: s("ａ"), pair: vec![], list: vec![] }];
    assert!(save_punctuation(&mut patch, &half, &full).is_ok());
    let back = get_punctuation(&patch);
    // Sorted by key; the empty rule is not written; a commit wins over a pair.
    assert_eq!(back.half_shape.len(), 3);
    assert_eq!(back.half_shape[0].key, "'");
    assert_eq!(back.half_shape[0].pair, vec![s("‘"), s("’")]);
    assert_eq!(back.half_shape[1].key, ",");
    assert_eq!(back.half_shape[1].commit, "，");
    assert!(back.half_shape[1].pair.is_empty());
    assert_eq!(back.half_shape[2].key, "/");
    assert_eq!(back.half_shape[2].list, vec![s("/"), s("÷")]);
    assert_eq!(back.full_shape.len(), 1);
    assert_eq!(back.full_shape[0].commit, "ａ");
}

#[test]
fn saved_sync_settings_read_back_on_values() {
    let mut doc = YamlMap::new();
    doc.insert(s("sync_dir"), YamlValue::Str(s("/old")));
    let settings = SyncSettings { sync_dir: None, installation_id: s("my-box_1"), sync_user_dict: true, sync_config: true };
    assert!(save_sync_settings(&mut doc, settings).is_ok());
    let back = get_sync_settings(&doc);
    assert_eq!(back.sync_dir, None);
    assert_eq!(back.installation_id, "my-box_1");
    let settings = SyncSettings { sync_dir: Some(s("/sync")), installation_id: s("my-box_1"), sync_user_dict: true, sync_config: true };
    assert!(save_sync_settings(&mut doc, settings).is_ok());
    let back = get_sync_settings(&doc);
    assert_eq!(back.sync_dir, Some(s("/sync")));
}

#[test]
fn saved_schemas_read_back_on_values() {
    let mut patch = YamlMap::new();
    let mut off = RimeSchema::new(s("cangjie5"));
    off.enabled = false;
    let list = vec![RimeSchema::new(s("luna_pinyin")), off, RimeSchema::new(s("double_pinyin"))];
    assert!(save_schemas(&mut patch, &list, Some(8)).is_ok());
    let user = YamlValue::Mapping(YamlMap::new());
    let back = get_schemas(&user, &patch);
    assert_eq!(back.schemas.len(), 2);
    assert_eq!(back.schemas[0].schema_id, "luna_pinyin");
    assert_eq!(back.schemas[1].schema_id, "double_pinyin");
    assert_eq!(back.page_size, 8);
}

#[test]
fn saved_color_scheme_is_listed_and_deleted_one_is_gone() {
    let mut patch = YamlMap::new();
    let mut sch = RimeColorScheme::empty();
    sch.back_color = Some(RimeColor::new(0, 0, 0, 255));
    assert!(save_color_scheme(&mut patch, s("night"), &sch, None).is_ok());
    let schemes = mapping_of(patch.get(&s("preset_color_schemes")));
    assert!(schemes.get(&s("night")).is_some());
    // Renaming moves the entry.
    assert!(save_color_scheme(&mut patch, s("midnight"), &sch, Some(s("night"))).is_ok());
    let schemes = mapping_of(patch.get(&s("preset_color_schemes")));
    assert!(schemes.get(&s("night")).is_none());
    assert!(schemes.get(&s("midnight")).is_some());
    // Select it, then delete it: the selection falls back to native.
    let mut style = YamlMap::new();
    style.insert(s("color_scheme"), YamlValue::Str(s("midnight")));
    style.insert(s("color_scheme_dark"), YamlValue::Str(s("midnight")));
    patch.insert(s("style"), YamlValue::Mapping(style));
    assert!(delete_color_scheme(&mut patch, &s("midnight")).is_ok());
    let schemes = mapping_of(patch.get(&s("preset_color_schemes")));
    assert!(schemes.get(&s("midnight")).is_none());
    let style = mapping_of(patch.get(&s("style")));
    assert_eq!(text_of(style.get(&s("color_scheme"))), Some(s("native")));
    assert_eq!(text_of(style.get(&s("color_scheme_dark"))), Some(s("native")));
}

#[test]
fn mounted_grammar_reads_back_on_values() {
    let mut patch = YamlMap::new();
    patch.insert(s("speller/algebra"), YamlValue::Sequence(vec![]));
    let mut c = SchemaGrammarConfig::default_for("luna_pinyin");
    c.collocation_max_length = 8;
    c.rear_penalty = -30;
    c.contextual_suggestions = false;
    c.max_homographs = 3;
    mount_grammar(&mut patch, s("zh-hans-t-essay-bgw"), &c);
    let mut doc = YamlMap::new();
    doc.insert(s("patch"), YamlValue::Mapping(patch.deep_copy()));
    let doc = YamlValue::Mapping(doc);
    let loaded = load_mount_config("luna_pinyin", Some(&doc));
    assert_eq!(loaded.schema_id, "luna_pinyin");
    assert_eq!(loaded.mounted_model, Some(s("zh-hans-t-essay-bgw")));
    assert_eq!(loaded.collocation_max_length, 8);
    assert_eq!(loaded.collocation_min_length, 2);
    assert_eq!(loaded.rear_penalty, -30);
    assert!(!loaded.contextual_suggestions);
    assert_eq!(loaded.max_homophones, 7);
    assert_eq!(loaded.max_homographs, 3);
}

#[test]
fn unmount_clears_grammar_keys_on_values() {
    let mut patch = YamlMap::new();
    patch.insert(s("grammar"), YamlValue::Str(s("old")));
    let mut t = YamlMap::new();
    t.insert(s("max_homophones"), YamlValue::Number(YamlNumber::PosInt(3)));
    t.insert(s("enable_sentence"), YamlValue::Bool(true));
    patch.insert(s("translator"), YamlValue::Mapping(t));
    patch.insert(s("speller/alphabet"), YamlValue::Str(s("abc")));
    let c = SchemaGrammarConfig::default_for("luna_pinyin");
    mount_grammar(&mut patch, s("model"), &c);
    unmount_grammar(&mut patch);
    for i in 0..patch.len() {
        let k = patch.key_at(i);
        assert!(k != "grammar" && !k.starts_with("grammar/"));
    }
    let t = mapping_of(patch.get(&s("translator")));
    assert!(t.get(&s("max_homophones")).is_none());
    assert!(t.get(&s("enable_sentence")).is_some());
    // The flat translator keys that a mount writes are left in place.
    assert!(matches!(patch.get(&s("translator/max_homophones")), Some(YamlValue::Number(YamlNumber::PosInt(7)))));
    assert_eq!(text_of(patch.get(&s("speller/alphabet"))), Some(s("abc")));
}

#[test]
fn timestamped_copy_is_counted_on_values() {
    let name = timestamped_backup_name("default.custom.yaml", "20240102-030405.678");
    assert_eq!(name, "default.custom.20240102-030405.678.yaml");
    assert!(is_timestamped_backup(&name, "default.custom", "yaml"));
    let name = timestamped_backup_name("installation", "20240102-030405.678");
    assert_eq!(name, "installation.20240102-030405.678");
    assert!(is_timestamped_backup(&name, "installation", ""));
    assert!(!is_timestamped_backup("default.custom.backup.yaml", "default.custom", "yaml"));
}

#[test]
fn stable_sort_keeps_ties_in_order() {
    let items = vec![s("b1"), s("a1"), s("b2"), s("a2")];
    let keys = vec![SortKey::Text(s("b")), SortKey::Text(s("a")), SortKey::Text(s("b")), SortKey::Text(s("a"))];
    let r = sort_by_keys(items, keys, false);
    assert_eq!(r, vec![s("a1"), s("a2"), s("b1"), s("b2")]);
    let items = vec![1, 2, 3, 4];
    let keys = vec![SortKey::Num(1), SortKey::Num(5), SortKey::Num(1), SortKey::Num(5)];
    let r = sort_by_keys(items, keys, true);
    assert_eq!(r, vec![2, 4, 1, 3]);
}

#[test]
fn set_keeps_other_keys_and_remove_empties_on_values() {
    let mut dict = YamlMap::new();
    set_value(&mut dict, &[s("style"), s("font_face")], YamlValue::Str(s("Arial")));
    set_value(&mut dict, &[s("menu"), s("page_size")], YamlValue::Number(YamlNumber::PosInt(5)));
    assert_eq!(text_of(value_at(&dict, &[s("style"), s("font_face")])), Some(s("Arial")));
    remove_value(&mut dict, &[s("menu"), s("page_size")]);
    assert!(dict.get(&s("menu")).is_none());
    assert!(dict.get(&s("style")).is_some());
}

#[test]
fn merge_laws_on_values() {
    let mut base = YamlMap::new();
    base.insert(s("a"), YamlValue::Number(YamlNumber::PosInt(1)));
    let mut inner = YamlMap::new();
    inner.insert(s("x"), YamlValue::Bool(true));
    base.insert(s("b"), YamlValue::Mapping(inner));
    // An empty patch changes nothing.
    let m = merge(&base, &YamlMap::new());
    assert_eq!(m.len(), 2);
    // A plain entry sets its key.
    let mut p = YamlMap::new();
    p.insert(s("a"), YamlValue::Str(s("one")));
    let m = merge(&base, &p);
    assert_eq!(text_of(m.get(&s("a"))), Some(s("one")));
    // A deletion removes the path.
    let mut p = YamlMap::new();
    p.insert(s("__delete__"), YamlValue::Sequence(vec![YamlValue::Str(s("b/x"))]));
    let m = merge(&base, &p);
    assert!(value_at(&m, &[s("b"), s("x")]).is_none());
}

#[test]
fn added_entry_is_found_on_values() {
    for content in ["", "a\tb\tc=1\n", "a\tb\tc=1", "a\tb\tc=1\r\n\n  \n"] {
        let text = add_dict_entry(content, &NewDictEntry { word: s("新词"), code: s("xin ci"), frequency: -3 }).unwrap();
        let found = snapshot_entries(&text);
        assert!(found.iter().any(|e| e.word == "新词" && e.code == "xin ci" && e.frequency == -3));
    }
}

#[test]
fn deleted_entries_are_gone_on_values() {
    let content = "# c\nx\ty\tc=1\nw\tc\tc=2\r\nw\tc\tc=9\nz\tz\t3\r";
    let keys = vec![DictEntryKey { word: s("w"), code: s("c") }, DictEntryKey { word: s("z"), code: s("z") }];
    let (text, n) = delete_entries(content, &keys);
    assert_eq!(n, 3);
    let left = snapshot_entries(&text);
    assert_eq!(left.len(), 1);
    assert_eq!(left[0].word, "x");
    assert!(left.iter().all(|e| !(e.word == "w" && e.code == "c") && !(e.word == "z" && e.code == "z")));
}

#[test]
fn updated_entry_reads_back_on_values() {
    let content = "# c\nw\tc\tc=1 d=0.5 t=3\nw\tc\t7\r\nx\ty\tc=2\nw\tc\tc=4\textra\r";
    let text = update_entry_frequency(content, &s("w"), &s("c"), 42);
    let es = snapshot_entries(&text);
    assert_eq!(es.len(), 4);
    assert!(es.iter().filter(|e| e.word == "w" && e.code == "c").all(|e| e.frequency == 42));
    assert_eq!(es.iter().filter(|e| e.word == "w" && e.code == "c").count(), 3);
    assert_eq!(es[2].word, "x");
    assert_eq!(es[2].frequency, 2);
    assert!(text.contains("w\tc\tc=42 d=0.5 t=3\n"));
}

#[test]
fn low_entries_are_gone_on_values() {
    let content = "# c\na\tb\tc=1\nd\te\t5\r\nf\tg\tc=-2 d=1\nh\ti\tc=3\n\n";
    let (text, n) = batch_delete_low_frequency(content, 3);
    assert_eq!(n, 2);
    let left = snapshot_entries(&text);
    assert_eq!(left.len(), 2);
    assert!(left.iter().all(|e| e.frequency >= 3));
    assert_eq!(text, "# c\nd\te\t5\nh\ti\tc=3\n\n");
}

#[test]
fn serialized_rules_parse_back_on_values() {
    let rules = vec![
        PunctRule { key: s("z"), commit: s("ｚ"), pair: vec![], list: vec![] },
        PunctRule { key: s("\""), commit: s(""), pair: vec![s("“"), s("”")], list: vec![] },
        PunctRule { key: s("m"), commit: s(""), pair: vec![], list: vec![s("a"), s("b")] },
    ];
    let back = parse_punct_dict(&serialize_punct_rules(&rules));
    assert_eq!(back.len(), 3);
    assert_eq!(back[0].key, "\"");
    assert_eq!(back[0].pair, vec![s("“"), s("”")]);
    assert_eq!(back[1].key, "m");
    assert_eq!(back[1].list, vec![s("a"), s("b")]);
    assert_eq!(back[2].key, "z");
    assert_eq!(back[2].commit, "ｚ");
    assert!(back[2].pair.is_empty() && back[2].list.is_empty());
}
