use vstd::prelude::*;

use crate::rime::config::{get_bool, get_i64, get_mapping, get_sequence, get_string, key, RimeConfig};
use crate::rime::config::{compiled_dir_of, joined_path};
use crate::rime::config::{bool_at, doc_get, int_at, mapping_at, sequence_at, string_at};
use crate::rime::edit::{bool_node, int_node, list_of, put_list, put_section, section_of, string_node, take_list, take_section, with_list, with_section};
use crate::rime::config::{contains_char, contains_dot_dot, has_char, has_dot_dot};
use crate::rime::text::{ends_with, has_suffix};
use crate::rime::text::{chars_of, join_chars, joined, split_chars, split_on, string_of, trim_chars, trimmed, vecs_view};
use crate::rime::patch::merged;
use crate::rime::plain_merge::{at2, at3, lemma_plain_walk_found, lemma_walk2, lemma_walk3, merged_walk, plain_walk};
use crate::rime::yaml::{Entries, YamlMap, YamlValue, YamlView, bool_of, int_of, map_get, map_insert, mapping_of, str_of, view_items};

verus! {

/// The general input settings shown on the settings page.
pub struct GeneralSettings {
    pub page_size: i64,
    pub enable_encoder: bool,
    pub enable_sentence: bool,
    pub enable_user_dict: bool,
    pub encode_commit_history: bool,
    pub switcher_caption: String,
    pub switcher_hotkeys: String,
    pub switcher_fold_options: bool,
    pub switcher_abbreviate_options: bool,
    pub caps_lock_action: String,
    pub shift_left_action: String,
    pub shift_right_action: String,
    pub good_old_caps_lock: bool,
}

/// The model of `GeneralSettings`: its texts as character sequences.
pub struct GeneralSettingsModel {
    pub page_size: i64,
    pub enable_encoder: bool,
    pub enable_sentence: bool,
    pub enable_user_dict: bool,
    pub encode_commit_history: bool,
    pub switcher_caption: Seq<char>,
    pub switcher_hotkeys: Seq<char>,
    pub switcher_fold_options: bool,
    pub switcher_abbreviate_options: bool,
    pub caps_lock_action: Seq<char>,
    pub shift_left_action: Seq<char>,
    pub shift_right_action: Seq<char>,
    pub good_old_caps_lock: bool,
}

impl View for GeneralSettings {
    type V = GeneralSettingsModel;

    open spec fn view(&self) -> GeneralSettingsModel {
        GeneralSettingsModel {
            page_size: self.page_size,
            enable_encoder: self.enable_encoder,
            enable_sentence: self.enable_sentence,
            enable_user_dict: self.enable_user_dict,
            encode_commit_history: self.encode_commit_history,
            switcher_caption: self.switcher_caption@,
            switcher_hotkeys: self.switcher_hotkeys@,
            switcher_fold_options: self.switcher_fold_options,
            switcher_abbreviate_options: self.switcher_abbreviate_options,
            caps_lock_action: self.caps_lock_action@,
            shift_left_action: self.shift_left_action@,
            shift_right_action: self.shift_right_action@,
            good_old_caps_lock: self.good_old_caps_lock,
        }
    }
}

pub open spec fn default_caption() -> Seq<char> {
    "〔方案切换〕"@
}

pub open spec fn default_hotkeys() -> Seq<char> {
    "Control+grave,Control+Shift+grave"@
}

pub open spec fn default_general_settings() -> GeneralSettingsModel {
    GeneralSettingsModel {
        page_size: 6,
        enable_encoder: true,
        enable_sentence: true,
        enable_user_dict: true,
        encode_commit_history: true,
        switcher_caption: default_caption(),
        switcher_hotkeys: default_hotkeys(),
        switcher_fold_options: true,
        switcher_abbreviate_options: true,
        caps_lock_action: "commit_code"@,
        shift_left_action: "commit_code"@,
        shift_right_action: "inline_ascii"@,
        good_old_caps_lock: true,
    }
}

impl Default for GeneralSettings {
    fn default() -> (s: Self)
        ensures
            s@ == default_general_settings(),
    {
        GeneralSettings {
            page_size: 6,
            enable_encoder: true,
            enable_sentence: true,
            enable_user_dict: true,
            encode_commit_history: true,
            switcher_caption: "〔方案切换〕".to_string(),
            switcher_hotkeys: "Control+grave,Control+Shift+grave".to_string(),
            switcher_fold_options: true,
            switcher_abbreviate_options: true,
            caps_lock_action: "commit_code".to_string(),
            shift_left_action: "commit_code".to_string(),
            shift_right_action: "inline_ascii".to_string(),
            good_old_caps_lock: true,
        }
    }
}

// ---------------------------------------------------------------------------
// Reading the settings from the configuration in force
// ---------------------------------------------------------------------------

/// The mapping under `k`, when there is one.
pub open spec fn section(dict: Entries, k: Seq<char>) -> Option<Entries> {
    match map_get(dict, k) {
        Some(v) => mapping_of(v),
        None => None,
    }
}

pub open spec fn or_int(o: Option<i64>, d: i64) -> i64 {
    match o {
        Some(x) => x,
        None => d,
    }
}

pub open spec fn or_bool(o: Option<bool>, d: bool) -> bool {
    match o {
        Some(x) => x,
        None => d,
    }
}

pub open spec fn or_text(o: Option<Seq<char>>, d: Seq<char>) -> Seq<char> {
    match o {
        Some(x) => x,
        None => d,
    }
}

/// The strings among `items`, in order.
pub open spec fn strs_in(items: Seq<YamlView>) -> Seq<Seq<char>>
    decreases items.len(),
{
    if items.len() == 0 {
        Seq::empty()
    } else {
        match str_of(items.last()) {
            Some(s) => strs_in(items.drop_last()).push(s),
            None => strs_in(items.drop_last()),
        }
    }
}

/// The settings that the configuration `dict` holds; what it leaves out keeps
/// its default.
pub open spec fn general_settings_of(dict: Entries) -> GeneralSettingsModel {
    let d = default_general_settings();
    let page_size = match section(dict, "menu"@) {
        Some(m) => or_int(int_at(m, "page_size"@), 6),
        None => d.page_size,
    };
    let (enc, sen, udict, hist) = match section(dict, "translator"@) {
        Some(t) => (
            or_bool(bool_at(t, "enable_encoder"@), true),
            or_bool(bool_at(t, "enable_sentence"@), true),
            or_bool(bool_at(t, "enable_user_dict"@), true),
            or_bool(bool_at(t, "encode_commit_history"@), true),
        ),
        None => (d.enable_encoder, d.enable_sentence, d.enable_user_dict, d.encode_commit_history),
    };
    let (caption, hotkeys, fold, abbrev) = match section(dict, "switcher"@) {
        Some(s) => (
            or_text(string_at(s, "caption"@), default_caption()),
            joined(strs_in(sequence_at(s, "hotkeys"@)), ", "@),
            or_bool(bool_at(s, "fold_options"@), true),
            or_bool(bool_at(s, "abbreviate_options"@), true),
        ),
        None => (d.switcher_caption, d.switcher_hotkeys, d.switcher_fold_options, d.switcher_abbreviate_options),
    };
    let (caps_old, caps, shift_l, shift_r) = match section(dict, "ascii_composer"@) {
        Some(c) => {
            let sk = mapping_at(c, "switch_key"@);
            (
                or_bool(bool_at(c, "good_old_caps_lock"@), true),
                or_text(string_at(sk, "Caps_Lock"@), "commit_code"@),
                or_text(string_at(sk, "Shift_L"@), "commit_code"@),
                or_text(string_at(sk, "Shift_R"@), "inline_ascii"@),
            )
        },
        None => (d.good_old_caps_lock, d.caps_lock_action, d.shift_left_action, d.shift_right_action),
    };
    GeneralSettingsModel {
        page_size,
        enable_encoder: enc,
        enable_sentence: sen,
        enable_user_dict: udict,
        encode_commit_history: hist,
        switcher_caption: caption,
        switcher_hotkeys: hotkeys,
        switcher_fold_options: fold,
        switcher_abbreviate_options: abbrev,
        caps_lock_action: caps,
        shift_left_action: shift_l,
        shift_right_action: shift_r,
        good_old_caps_lock: caps_old,
    }
}

/// The mapping under `k` of a configuration, when there is one.
pub fn section_in<'a>(dict: &'a YamlMap, k: &str) -> (r: Option<&'a YamlMap>)
    ensures
        match r {
            Some(m) => section(dict@, k@) == Some(m@),
            None => section(dict@, k@) == None::<Entries>,
        },
{
    match dict.get(&key(k)) {
        Some(v) => v.as_mapping(),
        None => None,
    }
}

/// The strings among `items`, joined with `", "`.
pub fn join_strs(items: &Vec<YamlValue>) -> (r: String)
    ensures
        r@ == joined(strs_in(view_items(items@)), ", "@),
{
    let mut parts: Vec<Vec<char>> = Vec::new();
    let mut i: usize = 0;
    proof {
        crate::rime::yaml::lemma_view_items(items@);
    }
    while i < items.len()
        invariant
            i <= items@.len(),
            view_items(items@).len() == items@.len(),
            forall|j: int| 0 <= j < items@.len() ==> #[trigger] view_items(items@)[j] == items@[j]@,
            vecs_view(parts@) == strs_in(view_items(items@).take(i as int)),
        decreases items@.len() - i,
    {
        let ghost before = parts@;
        assert(view_items(items@).take(i + 1).drop_last() =~= view_items(items@).take(i as int));
        assert(view_items(items@).take(i + 1).last() == items@[i as int]@);
        match items[i].as_str() {
            Some(s) => {
                parts.push(chars_of(s.as_str()));
                assert(vecs_view(parts@) =~= vecs_view(before).push(s@));
            },
            None => {},
        }
        i = i + 1;
    }
    assert(view_items(items@).take(i as int) =~= view_items(items@));
    let sep = chars_of(", ");
    let r = join_chars(&parts, sep.as_slice());
    string_of(r.as_slice())
}

fn text_or(o: Option<String>, d: &str) -> (r: String)
    ensures
        r@ == match o {
            Some(s) => s@,
            None => d@,
        },
{
    match o {
        Some(s) => s,
        None => d.to_string(),
    }
}

/// The general settings that the configuration in force holds (read from the
/// merged `default` configuration).
pub fn get_general_settings(dict: &YamlMap) -> (s: GeneralSettings)
    ensures
        s@ == general_settings_of(dict@),
{
    let mut settings = GeneralSettings::default();
    match section_in(dict, "menu") {
        Some(m) => {
            settings.page_size = match get_i64(m, "page_size") {
                Some(x) => x,
                None => 6,
            };
        },
        None => {},
    }
    match section_in(dict, "translator") {
        Some(t) => {
            settings.enable_encoder = get_bool(t, "enable_encoder").unwrap_or(true);
            settings.enable_sentence = get_bool(t, "enable_sentence").unwrap_or(true);
            settings.enable_user_dict = get_bool(t, "enable_user_dict").unwrap_or(true);
            settings.encode_commit_history = get_bool(t, "encode_commit_history").unwrap_or(true);
        },
        None => {},
    }
    match section_in(dict, "switcher") {
        Some(s) => {
            settings.switcher_caption = text_or(get_string(s, "caption"), "〔方案切换〕");
            let hotkeys = get_sequence(s, "hotkeys");
            settings.switcher_hotkeys = join_strs(&hotkeys);
            settings.switcher_fold_options = get_bool(s, "fold_options").unwrap_or(true);
            settings.switcher_abbreviate_options = get_bool(s, "abbreviate_options").unwrap_or(true);
        },
        None => {},
    }
    match section_in(dict, "ascii_composer") {
        Some(c) => {
            settings.good_old_caps_lock = get_bool(c, "good_old_caps_lock").unwrap_or(true);
            let sk = get_mapping(c, "switch_key");
            settings.caps_lock_action = text_or(get_string(&sk, "Caps_Lock"), "commit_code");
            settings.shift_left_action = text_or(get_string(&sk, "Shift_L"), "commit_code");
            settings.shift_right_action = text_or(get_string(&sk, "Shift_R"), "inline_ascii");
        },
        None => {},
    }
    settings
}

// ---------------------------------------------------------------------------
// Writing the settings into the custom patch
// ---------------------------------------------------------------------------

/// The hotkeys text as a list: split at commas, each piece trimmed.
pub open spec fn hotkey_nodes(s: Seq<char>) -> Seq<YamlView> {
    split_on(s, ',').map_values(|p: Seq<char>| YamlView::Str(trimmed(p)))
}

pub open spec fn translator_with(t: Entries, s: GeneralSettingsModel) -> Entries {
    map_insert(
        map_insert(
            map_insert(
                map_insert(t, "enable_encoder"@, YamlView::Bool(s.enable_encoder)),
                "enable_sentence"@,
                YamlView::Bool(s.enable_sentence),
            ),
            "enable_user_dict"@,
            YamlView::Bool(s.enable_user_dict),
        ),
        "encode_commit_history"@,
        YamlView::Bool(s.encode_commit_history),
    )
}

pub open spec fn switcher_with(w: Entries, s: GeneralSettingsModel) -> Entries {
    map_insert(
        map_insert(
            map_insert(
                map_insert(w, "caption"@, YamlView::Str(s.switcher_caption)),
                "hotkeys"@,
                YamlView::Sequence(hotkey_nodes(s.switcher_hotkeys)),
            ),
            "fold_options"@,
            YamlView::Bool(s.switcher_fold_options),
        ),
        "abbreviate_options"@,
        YamlView::Bool(s.switcher_abbreviate_options),
    )
}

pub open spec fn switch_key_with(k: Entries, s: GeneralSettingsModel) -> Entries {
    map_insert(
        map_insert(
            map_insert(k, "Caps_Lock"@, YamlView::Str(s.caps_lock_action)),
            "Shift_L"@,
            YamlView::Str(s.shift_left_action),
        ),
        "Shift_R"@,
        YamlView::Str(s.shift_right_action),
    )
}

/// The patch with the settings written in, section by section (a missing
/// section is added), or the message for the first section that is there but
/// is no mapping.
pub open spec fn saved_general_settings(patch: Entries, s: GeneralSettingsModel) -> Result<Entries, Seq<char>> {
    match section_of(patch, "menu"@) {
        None => Err("menu is not a mapping"@),
        Some(menu) => {
            let p1 = with_section(patch, "menu"@, map_insert(menu, "page_size"@, YamlView::Number(crate::rime::yaml::number_of_i64(s.page_size))));
            match section_of(p1, "translator"@) {
                None => Err("translator is not a mapping"@),
                Some(t) => {
                    let p2 = with_section(p1, "translator"@, translator_with(t, s));
                    match section_of(p2, "switcher"@) {
                        None => Err("switcher is not a mapping"@),
                        Some(w) => {
                            let p3 = with_section(p2, "switcher"@, switcher_with(w, s));
                            match section_of(p3, "ascii_composer"@) {
                                None => Err("ascii_composer is not a mapping"@),
                                Some(a) => {
                                    let a1 = map_insert(a, "good_old_caps_lock"@, YamlView::Bool(s.good_old_caps_lock));
                                    match section_of(a1, "switch_key"@) {
                                        None => Err("switch_key is not a mapping"@),
                                        Some(k) => Ok(
                                            with_section(p3, "ascii_composer"@, with_section(a1, "switch_key"@, switch_key_with(k, s))),
                                        ),
                                    }
                                },
                            }
                        },
                    }
                },
            }
        },
    }
}

/// The hotkeys text as a list of trimmed pieces.
pub fn hotkey_list(s: &str) -> (r: Vec<YamlValue>)
    ensures
        view_items(r@) == hotkey_nodes(s@),
{
    let parts = split_chars(chars_of(s).as_slice(), ',');
    let mut r: Vec<YamlValue> = Vec::new();
    let mut i: usize = 0;
    while i < parts.len()
        invariant
            i <= parts@.len(),
            vecs_view(parts@) == split_on(s@, ','),
            r@.len() == i,
            forall|j: int| 0 <= j < i ==> (#[trigger] r@[j])@ == YamlView::Str(trimmed(parts@[j]@)),
        decreases parts@.len() - i,
    {
        let t = trim_chars(parts[i].as_slice());
        r.push(string_node(string_of(t.as_slice())));
        i = i + 1;
    }
    proof {
        crate::rime::yaml::lemma_view_items(r@);
        assert(view_items(r@) =~= hotkey_nodes(s@));
    }
    r
}

fn error_text(s: &str) -> (r: String)
    ensures
        r@ == s@,
{
    s.to_string()
}

/// Writes the settings into the `default` patch. On an error the patch is
/// left as it was.
pub fn save_general_settings(patch: &mut YamlMap, settings: GeneralSettings) -> (r: Result<(), String>)
    ensures
        match saved_general_settings(old(patch)@, settings@) {
            Ok(p) => r is Ok && final(patch)@ == p,
            Err(e) => r matches Err(m) && m@ == e && final(patch)@ == old(patch)@,
        },
{
    let ghost s = settings@;
    let mut work = patch.deep_copy();
    let mut menu = match take_section(&work, "menu") {
        Some(m) => m,
        None => return Err(error_text("menu is not a mapping")),
    };
    menu.insert(key("page_size"), int_node(settings.page_size));
    put_section(&mut work, "menu", menu);

    let mut translator = match take_section(&work, "translator") {
        Some(m) => m,
        None => return Err(error_text("translator is not a mapping")),
    };
    translator.insert(key("enable_encoder"), bool_node(settings.enable_encoder));
    translator.insert(key("enable_sentence"), bool_node(settings.enable_sentence));
    translator.insert(key("enable_user_dict"), bool_node(settings.enable_user_dict));
    translator.insert(key("encode_commit_history"), bool_node(settings.encode_commit_history));
    put_section(&mut work, "translator", translator);

    let hotkeys = hotkey_list(settings.switcher_hotkeys.as_str());
    let mut switcher = match take_section(&work, "switcher") {
        Some(m) => m,
        None => return Err(error_text("switcher is not a mapping")),
    };
    switcher.insert(key("caption"), string_node(settings.switcher_caption));
    switcher.insert(key("hotkeys"), YamlValue::Sequence(hotkeys));
    switcher.insert(key("fold_options"), bool_node(settings.switcher_fold_options));
    switcher.insert(key("abbreviate_options"), bool_node(settings.switcher_abbreviate_options));
    put_section(&mut work, "switcher", switcher);

    let mut composer = match take_section(&work, "ascii_composer") {
        Some(m) => m,
        None => return Err(error_text("ascii_composer is not a mapping")),
    };
    composer.insert(key("good_old_caps_lock"), bool_node(settings.good_old_caps_lock));
    let mut switch_key = match take_section(&composer, "switch_key") {
        Some(m) => m,
        None => return Err(error_text("switch_key is not a mapping")),
    };
    switch_key.insert(key("Caps_Lock"), string_node(settings.caps_lock_action));
    switch_key.insert(key("Shift_L"), string_node(settings.shift_left_action));
    switch_key.insert(key("Shift_R"), string_node(settings.shift_right_action));
    put_section(&mut composer, "switch_key", switch_key);
    put_section(&mut work, "ascii_composer", composer);
    *patch = work;
    Ok(())
}


// ---------------------------------------------------------------------------
// Saved settings read back
// ---------------------------------------------------------------------------

/// The hotkeys text as it reads back once saved: its comma-separated pieces,
/// trimmed, joined with `, `.
pub open spec fn normalized_hotkeys(h: Seq<char>) -> Seq<char> {
    joined(split_on(h, ',').map_values(|p: Seq<char>| trimmed(p)), ", "@)
}

/// The settings as they read back once saved: the same, with the hotkeys text
/// normalized.
pub open spec fn settings_as_saved(s: GeneralSettingsModel) -> GeneralSettingsModel {
    GeneralSettingsModel { switcher_hotkeys: normalized_hotkeys(s.switcher_hotkeys), ..s }
}

proof fn lemma_strs_in_strs(ts: Seq<Seq<char>>)
    ensures
        strs_in(ts.map_values(|t: Seq<char>| YamlView::Str(t))) == ts,
    decreases ts.len(),
{
    if ts.len() > 0 {
        let items = ts.map_values(|t: Seq<char>| YamlView::Str(t));
        lemma_strs_in_strs(ts.drop_last());
        assert(items.drop_last() =~= ts.drop_last().map_values(|t: Seq<char>| YamlView::Str(t)));
        assert(ts.drop_last().push(ts.last()) =~= ts);
    }
}

proof fn lemma_section_replaced(patch: Entries, k: Seq<char>, m: Entries)
    ensures
        section(with_section(patch, k, m), k) == Some(m),
        forall|k2: Seq<char>| k2 != k ==> #[trigger] map_get(with_section(patch, k, m), k2) == map_get(patch, k2),
{
    crate::rime::edit::lemma_with_section_get(patch, k, m);
    match map_get(patch, k) {
        Some(v) => {
            crate::rime::yaml::lemma_insert_get(patch, k, crate::rime::edit::rewrap(v, m));
            assert forall|k2: Seq<char>| k2 != k implies #[trigger] map_get(with_section(patch, k, m), k2) == map_get(patch, k2) by {
                crate::rime::yaml::lemma_insert_other(patch, k, crate::rime::edit::rewrap(v, m), k2);
            }
        },
        None => {
            crate::rime::yaml::lemma_insert_get(patch, k, YamlView::Mapping(m));
            assert forall|k2: Seq<char>| k2 != k implies #[trigger] map_get(with_section(patch, k, m), k2) == map_get(patch, k2) by {
                crate::rime::yaml::lemma_insert_other(patch, k, YamlView::Mapping(m), k2);
            }
        },
    }
}

/// Saved general settings read back as they were (the hotkeys text
/// normalized): the patch the settings are written into, read as a
/// configuration, holds exactly those settings.
pub proof fn saved_settings_read_back(patch: Entries, s: GeneralSettingsModel)
    requires
        saved_general_settings(patch, s) is Ok,
    ensures
        general_settings_of(saved_general_settings(patch, s)->Ok_0) == settings_as_saved(s),
{
    reveal_strlit("menu");
    reveal_strlit("translator");
    reveal_strlit("switcher");
    reveal_strlit("ascii_composer");
    reveal_strlit("page_size");
    reveal_strlit("enable_encoder");
    reveal_strlit("enable_sentence");
    reveal_strlit("enable_user_dict");
    reveal_strlit("encode_commit_history");
    reveal_strlit("caption");
    reveal_strlit("hotkeys");
    reveal_strlit("fold_options");
    reveal_strlit("abbreviate_options");
    reveal_strlit("good_old_caps_lock");
    reveal_strlit("switch_key");
    reveal_strlit("Caps_Lock");
    reveal_strlit("Shift_L");
    reveal_strlit("Shift_R");
    assert forall|m: Entries, k: Seq<char>, v: YamlView, k2: Seq<char>|
        k2 != k implies #[trigger] map_get(map_insert(m, k, v), k2) == map_get(m, k2) by {
        crate::rime::yaml::lemma_insert_other(m, k, v, k2);
    }
    assert forall|m: Entries, k: Seq<char>, v: YamlView| #[trigger] map_get(map_insert(m, k, v), k) == Some(v) by {
        crate::rime::yaml::lemma_insert_get(m, k, v);
    }
    let menu = section_of(patch, "menu"@).unwrap();
    let menu1 = map_insert(menu, "page_size"@, YamlView::Number(crate::rime::yaml::number_of_i64(s.page_size)));
    let p1 = with_section(patch, "menu"@, menu1);
    lemma_section_replaced(patch, "menu"@, menu1);
    let t = section_of(p1, "translator"@).unwrap();
    let t1 = translator_with(t, s);
    let p2 = with_section(p1, "translator"@, t1);
    lemma_section_replaced(p1, "translator"@, t1);
    let w = section_of(p2, "switcher"@).unwrap();
    let w1 = switcher_with(w, s);
    let p3 = with_section(p2, "switcher"@, w1);
    lemma_section_replaced(p2, "switcher"@, w1);
    let a = section_of(p3, "ascii_composer"@).unwrap();
    let a1 = map_insert(a, "good_old_caps_lock"@, YamlView::Bool(s.good_old_caps_lock));
    let k = section_of(a1, "switch_key"@).unwrap();
    let k1 = switch_key_with(k, s);
    let a2 = with_section(a1, "switch_key"@, k1);
    lemma_section_replaced(a1, "switch_key"@, k1);
    let p = with_section(p3, "ascii_composer"@, a2);
    lemma_section_replaced(p3, "ascii_composer"@, a2);
    assert(saved_general_settings(patch, s) == Ok::<Entries, Seq<char>>(p));
    assert("menu"@.len() == 4 && "translator"@.len() == 10 && "switcher"@.len() == 8 && "ascii_composer"@.len() == 14);
    assert(section(p, "menu"@) == Some(menu1));
    assert(section(p, "translator"@) == Some(t1));
    assert(section(p, "switcher"@) == Some(w1));
    assert(section(p, "ascii_composer"@) == Some(a2));
    assert("enable_encoder"@.len() == 14 && "enable_sentence"@.len() == 15 && "enable_user_dict"@.len() == 16
        && "encode_commit_history"@.len() == 21);
    assert("caption"@[0] != "hotkeys"@[0]);
    assert("fold_options"@.len() == 12 && "abbreviate_options"@.len() == 18 && "caption"@.len() == 7);
    assert("Shift_L"@[6] != "Shift_R"@[6]);
    assert(mapping_at(a2, "switch_key"@) == k1);
    let hs = split_on(s.switcher_hotkeys, ',').map_values(|q: Seq<char>| trimmed(q));
    assert(hotkey_nodes(s.switcher_hotkeys) =~= hs.map_values(|t: Seq<char>| YamlView::Str(t)));
    lemma_strs_in_strs(hs);
    assert(sequence_at(w1, "hotkeys"@) == hotkey_nodes(s.switcher_hotkeys));
}

// ---------------------------------------------------------------------------
// Opening a directory
// ---------------------------------------------------------------------------

/// Characters that a directory to open may not hold.
pub open spec fn is_unsafe_path_char(c: char) -> bool {
    c == '\0' || c == '\n' || c == '\r' || c == '\t' || c == ';' || c == '|' || c == '&' || c == '$'
        || c == '`' || c == '<' || c == '>'
}

/// Why a path may not be opened, or `None` when it may.
pub open spec fn open_dir_error(p: Seq<char>) -> Option<Seq<char>> {
    if p.len() == 0 {
        Some("路径不能为空"@)
    } else if p[0] == '-' {
        Some("无效的路径格式"@)
    } else if contains_dot_dot(p) {
        Some("路径包含无效字符"@)
    } else if exists|i: int| 0 <= i < p.len() && is_unsafe_path_char(#[trigger] p[i]) {
        Some("路径包含无效字符"@)
    } else {
        None
    }
}

/// Checks a path before a directory is opened in the file manager.
pub fn validate_open_dir_path(path: &str) -> (r: Result<(), String>)
    ensures
        match open_dir_error(path@) {
            Some(e) => r matches Err(m) && m@ == e,
            None => r is Ok,
        },
{
    let cs = chars_of(path);
    if cs.len() == 0 {
        return Err(error_text("路径不能为空"));
    }
    if cs[0] == '-' {
        return Err(error_text("无效的路径格式"));
    }
    if has_dot_dot(path) {
        return Err(error_text("路径包含无效字符"));
    }
    let mut i: usize = 0;
    while i < cs.len()
        invariant
            i <= cs@.len(),
            cs@ == path@,
            path@.len() > 0 && path@[0] != '-',
            !contains_dot_dot(path@),
            forall|j: int| 0 <= j < i ==> !is_unsafe_path_char(#[trigger] cs@[j]),
        decreases cs@.len() - i,
    {
        let c = cs[i];
        if c == '\0' || c == '\n' || c == '\r' || c == '\t' || c == ';' || c == '|' || c == '&' || c
            == '$' || c == '`' || c == '<' || c == '>' {
            assert(is_unsafe_path_char(path@[i as int]));
            return Err(error_text("路径包含无效字符"));
        }
        i = i + 1;
    }
    Ok(())
}

// ---------------------------------------------------------------------------
// Removing a schema from the schema list
// ---------------------------------------------------------------------------

/// The schema id a schema file is named after: the file name without
/// `.schema.yaml` or `.schema.yml`.
pub open spec fn schema_id_of_file(name: Seq<char>) -> Seq<char> {
    if has_suffix(name, ".schema.yaml"@) {
        name.take(name.len() - 12)
    } else if has_suffix(name, ".schema.yml"@) {
        name.take(name.len() - 11)
    } else {
        name
    }
}

pub fn schema_id_from_file_name(name: &str) -> (r: String)
    ensures
        r@ == schema_id_of_file(name@),
{
    proof {
        reveal_strlit(".schema.yaml");
        reveal_strlit(".schema.yml");
    }
    let cs = chars_of(name);
    let n = cs.len();
    let cut: usize = if ends_with(name, ".schema.yaml") {
        12
    } else if ends_with(name, ".schema.yml") {
        11
    } else {
        0
    };
    let mut r: Vec<char> = Vec::new();
    let mut i: usize = 0;
    while i < n - cut
        invariant
            cut <= n,
            n == cs@.len(),
            i <= n - cut,
            r@ == cs@.take(i as int),
        decreases n - cut - i,
    {
        r.push(cs[i]);
        i = i + 1;
        assert(r@ =~= cs@.take(i as int));
    }
    assert(cs@.take(n as int) =~= cs@);
    string_of(r.as_slice())
}

/// A schema-list entry stays unless it names the schema (an entry without a
/// `schema` string names the empty id).
pub open spec fn keeps_entry(item: YamlView, id: Seq<char>) -> bool {
    match mapping_of(item) {
        Some(m) => or_text(string_at(m, "schema"@), Seq::empty()) != id,
        None => true,
    }
}

pub open spec fn entries_kept(items: Seq<YamlView>, id: Seq<char>) -> Seq<YamlView>
    decreases items.len(),
{
    if items.len() == 0 {
        Seq::empty()
    } else if keeps_entry(items.last(), id) {
        entries_kept(items.drop_last(), id).push(items.last())
    } else {
        entries_kept(items.drop_last(), id)
    }
}

/// The patch without the schema's entries in its `schema_list` (unchanged
/// when the patch has no list there).
pub open spec fn without_schema(patch: Entries, id: Seq<char>) -> Entries {
    match list_of(patch, "schema_list"@) {
        Some(items) => with_list(patch, "schema_list"@, entries_kept(items, id)),
        None => patch,
    }
}

fn schema_field(item: &YamlValue) -> (r: Option<String>)
    ensures
        match mapping_of(item@) {
            Some(m) => r matches Some(s) && s@ == or_text(string_at(m, "schema"@), Seq::empty()),
            None => r is None,
        },
{
    proof {
        reveal_strlit("");
    }
    match item.as_mapping() {
        Some(m) => Some(text_or(get_string(m, "schema"), "")),
        None => None,
    }
}

/// Removes the schema a file defines from the `schema_list` of the `default`
/// patch.
pub fn remove_schema_from_list(patch: &mut YamlMap, schema_filename: &str)
    ensures
        final(patch)@ == without_schema(old(patch)@, schema_id_of_file(schema_filename@)),
{
    let id = schema_id_from_file_name(schema_filename);
    match take_list(patch, "schema_list") {
        Some(items) => {
            let mut kept: Vec<YamlValue> = Vec::new();
            let mut i: usize = 0;
            let mut rest = items;
            let ghost all = view_items(rest@);
            proof {
                crate::rime::yaml::lemma_view_items(rest@);
            }
            let n = rest.len();
            while i < n
                invariant
                    n == all.len(),
                    i <= n,
                    rest@.len() == n - i,
                    forall|j: int| 0 <= j < rest@.len() ==> (#[trigger] rest@[j])@ == all[i + j],
                    view_items(kept@) == entries_kept(all.take(i as int), id@),
                decreases n - i,
            {
                let item = rest.remove(0);
                let ghost before = kept@;
                assert(all.take(i + 1).drop_last() =~= all.take(i as int));
                assert(all.take(i + 1).last() == item@);
                let keep = match schema_field(&item) {
                    Some(sid) => sid != id,
                    None => true,
                };
                if keep {
                    kept.push(item);
                    proof {
                        crate::rime::yaml::lemma_view_items(kept@);
                        crate::rime::yaml::lemma_view_items(before);
                        assert(view_items(kept@) =~= view_items(before).push(kept@.last()@));
                    }
                }
                i = i + 1;
            }
            assert(all.take(n as int) =~= all);
            put_list(patch, "schema_list", kept);
        },
        None => {},
    }
}

// ---------------------------------------------------------------------------
// Deletions held back until deployment
// ---------------------------------------------------------------------------

/// A deletion the user asked for, carried out at the next deployment:
proof fn lemma_kept_unnamed(items: Seq<YamlView>, id: Seq<char>)
    ensures
        !crate::commands::schema::schema_ids_in(entries_kept(items, id)).contains(id),
    decreases items.len(),
{
    if items.len() > 0 {
        lemma_kept_unnamed(items.drop_last(), id);
        let r0 = entries_kept(items.drop_last(), id);
        if keeps_entry(items.last(), id) {
            let r = r0.push(items.last());
            assert(entries_kept(items, id) == r);
            assert(r.drop_last() =~= r0);
            let ids0 = crate::commands::schema::schema_ids_in(r0);
            match doc_get(items.last(), "schema"@) {
                Some(v) => match str_of(v) {
                    Some(sv) => {
                        assert(crate::commands::schema::schema_ids_in(r) == ids0.push(sv));
                        assert(sv != id);
                        if ids0.push(sv).contains(id) {
                            let k = choose|k: int| 0 <= k < ids0.push(sv).len() && ids0.push(sv)[k] == id;
                            assert(ids0[k] == id);
                        }
                    },
                    None => {},
                },
                None => {},
            }
        }
    }
}

/// A removed schema is no longer listed: the schema list left by removing the
/// schema a file defines names no schema of that id.
pub proof fn removed_schema_is_unlisted(patch: Entries, schema_filename: Seq<char>)
    ensures
        !crate::commands::schema::schema_ids_in(
            sequence_at(without_schema(patch, schema_id_of_file(schema_filename)), "schema_list"@),
        ).contains(schema_id_of_file(schema_filename)),
{
    let id = schema_id_of_file(schema_filename);
    let k = "schema_list"@;
    match list_of(patch, k) {
        Some(items) => {
            crate::rime::edit::lemma_with_list_get(patch, k, entries_kept(items, id));
            lemma_kept_unnamed(items, id);
        },
        None => {
            assert(sequence_at(patch, k) == Seq::<YamlView>::empty());
            assert(crate::commands::schema::schema_ids_in(Seq::<YamlView>::empty()) == Seq::<Seq<char>>::empty());
        },
    }
}

/// `delete_type` is `theme`, `schema` or `model`.
pub struct PendingDelete {
    pub delete_type: String,
    pub identifier: String,
}

/// What a pending deletion comes to.
#[derive(Debug, Clone, Copy, PartialEq, Eq, Structural)]
pub enum DeleteAction {
    /// The identifier could leave the user directory: nothing is done.
    Skip,
    /// Remove the color scheme of that name.
    Theme,
    /// Remove the schema file and its entry in the schema list.
    Schema,
    /// Remove the grammar model file.
    Model,
    /// A type nobody knows: nothing is done.
    Unknown,
}

pub open spec fn delete_action_of(kind: Seq<char>, identifier: Seq<char>) -> DeleteAction {
    if contains_dot_dot(identifier) || contains_char(identifier, '/') || contains_char(identifier, '\\') {
        DeleteAction::Skip
    } else if kind == "theme"@ {
        DeleteAction::Theme
    } else if kind == "schema"@ {
        DeleteAction::Schema
    } else if kind == "model"@ {
        DeleteAction::Model
    } else {
        DeleteAction::Unknown
    }
}

fn same_text(a: &String, b: &str) -> (r: bool)
    ensures
        r == (a@ == b@),
{
    let t = b.to_string();
    *a == t
}

pub fn pending_delete_action(d: &PendingDelete) -> (r: DeleteAction)
    ensures
        r == delete_action_of(d.delete_type@, d.identifier@),
{
    let id = d.identifier.as_str();
    if has_dot_dot(id) || has_char(id, '/') || has_char(id, '\\') {
        DeleteAction::Skip
    } else if same_text(&d.delete_type, "theme") {
        DeleteAction::Theme
    } else if same_text(&d.delete_type, "schema") {
        DeleteAction::Schema
    } else if same_text(&d.delete_type, "model") {
        DeleteAction::Model
    } else {
        DeleteAction::Unknown
    }
}

/// Whether any pending deletion removes a grammar model (the deployment
/// backup then keeps the models).
pub fn has_model_delete(deletes: &Vec<PendingDelete>) -> (r: bool)
    ensures
        r == exists|i: int| 0 <= i < deletes@.len() && (#[trigger] deletes@[i]).delete_type@ == "model"@,
{
    let mut i: usize = 0;
    while i < deletes.len()
        invariant
            i <= deletes@.len(),
            forall|j: int| 0 <= j < i ==> (#[trigger] deletes@[j]).delete_type@ != "model"@,
        decreases deletes@.len() - i,
    {
        if same_text(&deletes[i].delete_type, "model") {
            return true;
        }
        i = i + 1;
    }
    false
}

// ---------------------------------------------------------------------------
// The configuration files
// ---------------------------------------------------------------------------

/// A configuration file shown to the user.
pub struct ConfigFileInfo {
    pub name: String,
    pub path: String,
    pub exists: bool,
    pub is_main: bool,
}

/// The four configuration files (style, its custom file, `default`, its custom
/// file), given whether each exists.
pub fn config_files(
    cfg: &RimeConfig,
    style_exists: bool,
    style_custom_exists: bool,
    default_exists: bool,
    default_custom_exists: bool,
) -> (r: Vec<ConfigFileInfo>)
    ensures
        r@.len() == 4,
        r@[0].name@ == cfg.style_file@ && r@[0].path@ == joined_path(compiled_dir_of(*cfg), cfg.style_file@) && r@[0].exists
            == style_exists && r@[0].is_main,
        r@[1].name@ == cfg.style_custom@ && r@[1].path@ == joined_path(cfg.user_dir@, cfg.style_custom@) && r@[1].exists
            == style_custom_exists && !r@[1].is_main,
        r@[2].name@ == cfg.default_yaml@ && r@[2].path@ == joined_path(compiled_dir_of(*cfg), cfg.default_yaml@) && r@[2].exists
            == default_exists && r@[2].is_main,
        r@[3].name@ == cfg.default_custom@ && r@[3].path@ == joined_path(cfg.user_dir@, cfg.default_custom@)
            && r@[3].exists == default_custom_exists && !r@[3].is_main,
{
    let mut r: Vec<ConfigFileInfo> = Vec::new();
    r.push(ConfigFileInfo { name: cfg.style_file.clone(), path: cfg.style_path(), exists: style_exists, is_main: true });
    r.push(ConfigFileInfo { name: cfg.style_custom.clone(), path: cfg.style_custom_path(), exists: style_custom_exists, is_main: false });
    r.push(ConfigFileInfo { name: cfg.default_yaml.clone(), path: cfg.default_path(), exists: default_exists, is_main: true });
    r.push(ConfigFileInfo { name: cfg.default_custom.clone(), path: cfg.default_custom_path(), exists: default_custom_exists, is_main: false });
    r
}


/// Saved settings read back from the configuration in force: when the
/// settings are saved into a patch that holds only plain keys (no `a/b`
/// key, no `__delete__` or `__append__`) on the way to each setting, the
/// settings read from that patch merged over any base document (the
/// compiled `default.yaml`) are the settings as saved.
pub proof fn saved_settings_read_back_merged(patch: Entries, s: GeneralSettingsModel, base: Entries)
    requires
        saved_general_settings(patch, s) is Ok,
        plain_walk(saved_general_settings(patch, s)->Ok_0, seq!["menu"@, "page_size"@]),
        plain_walk(saved_general_settings(patch, s)->Ok_0, seq!["translator"@, "enable_encoder"@]),
        plain_walk(saved_general_settings(patch, s)->Ok_0, seq!["translator"@, "enable_sentence"@]),
        plain_walk(saved_general_settings(patch, s)->Ok_0, seq!["translator"@, "enable_user_dict"@]),
        plain_walk(saved_general_settings(patch, s)->Ok_0, seq!["translator"@, "encode_commit_history"@]),
        plain_walk(saved_general_settings(patch, s)->Ok_0, seq!["switcher"@, "caption"@]),
        plain_walk(saved_general_settings(patch, s)->Ok_0, seq!["switcher"@, "hotkeys"@]),
        plain_walk(saved_general_settings(patch, s)->Ok_0, seq!["switcher"@, "fold_options"@]),
        plain_walk(saved_general_settings(patch, s)->Ok_0, seq!["switcher"@, "abbreviate_options"@]),
        plain_walk(saved_general_settings(patch, s)->Ok_0, seq!["ascii_composer"@, "good_old_caps_lock"@]),
        plain_walk(saved_general_settings(patch, s)->Ok_0, seq!["ascii_composer"@, "switch_key"@, "Caps_Lock"@]),
        plain_walk(saved_general_settings(patch, s)->Ok_0, seq!["ascii_composer"@, "switch_key"@, "Shift_L"@]),
        plain_walk(saved_general_settings(patch, s)->Ok_0, seq!["ascii_composer"@, "switch_key"@, "Shift_R"@]),
    ensures
        general_settings_of(merged(base, saved_general_settings(patch, s)->Ok_0)) == settings_as_saved(s),
{
    saved_settings_read_back(patch, s);
    let p = saved_general_settings(patch, s)->Ok_0;
    let m = merged(base, p);
    merged_walk(base, p, seq!["menu"@, "page_size"@]);
    lemma_plain_walk_found(p, seq!["menu"@, "page_size"@]);
    lemma_walk2(m, "menu"@, "page_size"@);
    lemma_walk2(p, "menu"@, "page_size"@);
    merged_walk(base, p, seq!["translator"@, "enable_encoder"@]);
    lemma_plain_walk_found(p, seq!["translator"@, "enable_encoder"@]);
    lemma_walk2(m, "translator"@, "enable_encoder"@);
    lemma_walk2(p, "translator"@, "enable_encoder"@);
    merged_walk(base, p, seq!["translator"@, "enable_sentence"@]);
    lemma_plain_walk_found(p, seq!["translator"@, "enable_sentence"@]);
    lemma_walk2(m, "translator"@, "enable_sentence"@);
    lemma_walk2(p, "translator"@, "enable_sentence"@);
    merged_walk(base, p, seq!["translator"@, "enable_user_dict"@]);
    lemma_plain_walk_found(p, seq!["translator"@, "enable_user_dict"@]);
    lemma_walk2(m, "translator"@, "enable_user_dict"@);
    lemma_walk2(p, "translator"@, "enable_user_dict"@);
    merged_walk(base, p, seq!["translator"@, "encode_commit_history"@]);
    lemma_plain_walk_found(p, seq!["translator"@, "encode_commit_history"@]);
    lemma_walk2(m, "translator"@, "encode_commit_history"@);
    lemma_walk2(p, "translator"@, "encode_commit_history"@);
    merged_walk(base, p, seq!["switcher"@, "caption"@]);
    lemma_plain_walk_found(p, seq!["switcher"@, "caption"@]);
    lemma_walk2(m, "switcher"@, "caption"@);
    lemma_walk2(p, "switcher"@, "caption"@);
    merged_walk(base, p, seq!["switcher"@, "hotkeys"@]);
    lemma_plain_walk_found(p, seq!["switcher"@, "hotkeys"@]);
    lemma_walk2(m, "switcher"@, "hotkeys"@);
    lemma_walk2(p, "switcher"@, "hotkeys"@);
    merged_walk(base, p, seq!["switcher"@, "fold_options"@]);
    lemma_plain_walk_found(p, seq!["switcher"@, "fold_options"@]);
    lemma_walk2(m, "switcher"@, "fold_options"@);
    lemma_walk2(p, "switcher"@, "fold_options"@);
    merged_walk(base, p, seq!["switcher"@, "abbreviate_options"@]);
    lemma_plain_walk_found(p, seq!["switcher"@, "abbreviate_options"@]);
    lemma_walk2(m, "switcher"@, "abbreviate_options"@);
    lemma_walk2(p, "switcher"@, "abbreviate_options"@);
    merged_walk(base, p, seq!["ascii_composer"@, "good_old_caps_lock"@]);
    lemma_plain_walk_found(p, seq!["ascii_composer"@, "good_old_caps_lock"@]);
    lemma_walk2(m, "ascii_composer"@, "good_old_caps_lock"@);
    lemma_walk2(p, "ascii_composer"@, "good_old_caps_lock"@);
    merged_walk(base, p, seq!["ascii_composer"@, "switch_key"@, "Caps_Lock"@]);
    lemma_plain_walk_found(p, seq!["ascii_composer"@, "switch_key"@, "Caps_Lock"@]);
    lemma_walk3(m, "ascii_composer"@, "switch_key"@, "Caps_Lock"@);
    lemma_walk3(p, "ascii_composer"@, "switch_key"@, "Caps_Lock"@);
    merged_walk(base, p, seq!["ascii_composer"@, "switch_key"@, "Shift_L"@]);
    lemma_plain_walk_found(p, seq!["ascii_composer"@, "switch_key"@, "Shift_L"@]);
    lemma_walk3(m, "ascii_composer"@, "switch_key"@, "Shift_L"@);
    lemma_walk3(p, "ascii_composer"@, "switch_key"@, "Shift_L"@);
    merged_walk(base, p, seq!["ascii_composer"@, "switch_key"@, "Shift_R"@]);
    lemma_plain_walk_found(p, seq!["ascii_composer"@, "switch_key"@, "Shift_R"@]);
    lemma_walk3(m, "ascii_composer"@, "switch_key"@, "Shift_R"@);
    lemma_walk3(p, "ascii_composer"@, "switch_key"@, "Shift_R"@);
    assert(general_settings_of(m) == general_settings_of(p));
}


/// The settings are read from their own keys: the page size from
/// `menu/page_size`; the translator switches from
/// `translator/enable_encoder`, `enable_sentence`, `enable_user_dict` and
/// `encode_commit_history`; the switcher from `switcher/caption`,
/// `fold_options` and `abbreviate_options`; and the ascii composer from
/// `ascii_composer/good_old_caps_lock` and
/// `ascii_composer/switch_key/Caps_Lock`, `Shift_L` and `Shift_R`, each
/// where the configuration holds a value of the right kind there.
pub proof fn settings_read_from_their_keys(dict: Entries)
    ensures
        at2(dict, "menu"@, "page_size"@) matches Some(v) ==> (int_of(v) matches Some(n) ==> general_settings_of(
            dict,
        ).page_size == n),
        at2(dict, "translator"@, "enable_encoder"@) matches Some(v) ==> (bool_of(v) matches Some(b) ==> general_settings_of(dict).enable_encoder == b),
        at2(dict, "translator"@, "enable_sentence"@) matches Some(v) ==> (bool_of(v) matches Some(b) ==> general_settings_of(dict).enable_sentence == b),
        at2(dict, "translator"@, "enable_user_dict"@) matches Some(v) ==> (bool_of(v) matches Some(b) ==> general_settings_of(dict).enable_user_dict == b),
        at2(dict, "translator"@, "encode_commit_history"@) matches Some(v) ==> (bool_of(v) matches Some(b) ==> general_settings_of(dict).encode_commit_history == b),
        at2(dict, "switcher"@, "caption"@) matches Some(v) ==> (str_of(v) matches Some(t) ==> general_settings_of(dict).switcher_caption == t),
        at2(dict, "switcher"@, "fold_options"@) matches Some(v) ==> (bool_of(v) matches Some(b) ==> general_settings_of(dict).switcher_fold_options == b),
        at2(dict, "switcher"@, "abbreviate_options"@) matches Some(v) ==> (bool_of(v) matches Some(b) ==> general_settings_of(dict).switcher_abbreviate_options == b),
        at2(dict, "ascii_composer"@, "good_old_caps_lock"@) matches Some(v) ==> (bool_of(v) matches Some(b) ==> general_settings_of(dict).good_old_caps_lock == b),
        at3(dict, "ascii_composer"@, "switch_key"@, "Caps_Lock"@) matches Some(v) ==> (str_of(v) matches Some(t) ==> general_settings_of(dict).caps_lock_action == t),
        at3(dict, "ascii_composer"@, "switch_key"@, "Shift_L"@) matches Some(v) ==> (str_of(v) matches Some(t) ==> general_settings_of(dict).shift_left_action == t),
        at3(dict, "ascii_composer"@, "switch_key"@, "Shift_R"@) matches Some(v) ==> (str_of(v) matches Some(t) ==> general_settings_of(dict).shift_right_action == t),
{
    let g = general_settings_of(dict);
    match section(dict, "menu"@) {
        Some(m) => assert(g.page_size == or_int(int_at(m, "page_size"@), 6)),
        None => {},
    }
    match section(dict, "translator"@) {
        Some(t) => {
            assert(g.enable_encoder == or_bool(bool_at(t, "enable_encoder"@), true));
            assert(g.enable_sentence == or_bool(bool_at(t, "enable_sentence"@), true));
            assert(g.enable_user_dict == or_bool(bool_at(t, "enable_user_dict"@), true));
            assert(g.encode_commit_history == or_bool(bool_at(t, "encode_commit_history"@), true));
        },
        None => {},
    }
    match section(dict, "switcher"@) {
        Some(w) => {
            assert(g.switcher_caption == or_text(string_at(w, "caption"@), default_caption()));
            assert(g.switcher_fold_options == or_bool(bool_at(w, "fold_options"@), true));
            assert(g.switcher_abbreviate_options == or_bool(bool_at(w, "abbreviate_options"@), true));
        },
        None => {},
    }
    match section(dict, "ascii_composer"@) {
        Some(c) => {
            let sk = mapping_at(c, "switch_key"@);
            assert(g.good_old_caps_lock == or_bool(bool_at(c, "good_old_caps_lock"@), true));
            assert(g.caps_lock_action == or_text(string_at(sk, "Caps_Lock"@), "commit_code"@));
            assert(g.shift_left_action == or_text(string_at(sk, "Shift_L"@), "commit_code"@));
            assert(g.shift_right_action == or_text(string_at(sk, "Shift_R"@), "inline_ascii"@));
        },
        None => {},
    }
}

/// The settings are saved under their own keys (those they are read from,
/// see `settings_read_from_their_keys`), the hotkeys as the list of the
/// comma-separated pieces, trimmed.
pub proof fn settings_saved_under_their_keys(patch: Entries, s: GeneralSettingsModel)
    requires
        saved_general_settings(patch, s) is Ok,
    ensures
        ({
            let p = saved_general_settings(patch, s)->Ok_0;
            &&& at2(p, "menu"@, "page_size"@) == Some(YamlView::Number(crate::rime::yaml::number_of_i64(s.page_size)))
            &&& at2(p, "translator"@, "enable_encoder"@) == Some(YamlView::Bool(s.enable_encoder))
            &&& at2(p, "translator"@, "enable_sentence"@) == Some(YamlView::Bool(s.enable_sentence))
            &&& at2(p, "translator"@, "enable_user_dict"@) == Some(YamlView::Bool(s.enable_user_dict))
            &&& at2(p, "translator"@, "encode_commit_history"@) == Some(YamlView::Bool(s.encode_commit_history))
            &&& at2(p, "switcher"@, "caption"@) == Some(YamlView::Str(s.switcher_caption))
            &&& at2(p, "switcher"@, "hotkeys"@) == Some(
                YamlView::Sequence(
                    split_on(s.switcher_hotkeys, ',').map_values(|q: Seq<char>| YamlView::Str(trimmed(q))),
                ),
            )
            &&& at2(p, "switcher"@, "fold_options"@) == Some(YamlView::Bool(s.switcher_fold_options))
            &&& at2(p, "switcher"@, "abbreviate_options"@) == Some(YamlView::Bool(s.switcher_abbreviate_options))
            &&& at2(p, "ascii_composer"@, "good_old_caps_lock"@) == Some(YamlView::Bool(s.good_old_caps_lock))
            &&& at3(p, "ascii_composer"@, "switch_key"@, "Caps_Lock"@) == Some(YamlView::Str(s.caps_lock_action))
            &&& at3(p, "ascii_composer"@, "switch_key"@, "Shift_L"@) == Some(YamlView::Str(s.shift_left_action))
            &&& at3(p, "ascii_composer"@, "switch_key"@, "Shift_R"@) == Some(YamlView::Str(s.shift_right_action))
        }),
{
    reveal_strlit("menu");
    reveal_strlit("translator");
    reveal_strlit("switcher");
    reveal_strlit("ascii_composer");
    reveal_strlit("page_size");
    reveal_strlit("enable_encoder");
    reveal_strlit("enable_sentence");
    reveal_strlit("enable_user_dict");
    reveal_strlit("encode_commit_history");
    reveal_strlit("caption");
    reveal_strlit("hotkeys");
    reveal_strlit("fold_options");
    reveal_strlit("abbreviate_options");
    reveal_strlit("good_old_caps_lock");
    reveal_strlit("switch_key");
    reveal_strlit("Caps_Lock");
    reveal_strlit("Shift_L");
    reveal_strlit("Shift_R");
    assert forall|m: Entries, k: Seq<char>, v: YamlView, k2: Seq<char>|
        k2 != k implies #[trigger] map_get(map_insert(m, k, v), k2) == map_get(m, k2) by {
        crate::rime::yaml::lemma_insert_other(m, k, v, k2);
    }
    assert forall|m: Entries, k: Seq<char>, v: YamlView| #[trigger] map_get(map_insert(m, k, v), k) == Some(v) by {
        crate::rime::yaml::lemma_insert_get(m, k, v);
    }
    let menu = section_of(patch, "menu"@).unwrap();
    let menu1 = map_insert(menu, "page_size"@, YamlView::Number(crate::rime::yaml::number_of_i64(s.page_size)));
    let p1 = with_section(patch, "menu"@, menu1);
    lemma_section_replaced(patch, "menu"@, menu1);
    let t = section_of(p1, "translator"@).unwrap();
    let t1 = translator_with(t, s);
    let p2 = with_section(p1, "translator"@, t1);
    lemma_section_replaced(p1, "translator"@, t1);
    let w = section_of(p2, "switcher"@).unwrap();
    let w1 = switcher_with(w, s);
    let p3 = with_section(p2, "switcher"@, w1);
    lemma_section_replaced(p2, "switcher"@, w1);
    let a = section_of(p3, "ascii_composer"@).unwrap();
    let a1 = map_insert(a, "good_old_caps_lock"@, YamlView::Bool(s.good_old_caps_lock));
    let k = section_of(a1, "switch_key"@).unwrap();
    let k1 = switch_key_with(k, s);
    let a2 = with_section(a1, "switch_key"@, k1);
    lemma_section_replaced(a1, "switch_key"@, k1);
    let p = with_section(p3, "ascii_composer"@, a2);
    lemma_section_replaced(p3, "ascii_composer"@, a2);
    assert(saved_general_settings(patch, s) == Ok::<Entries, Seq<char>>(p));
    assert("menu"@.len() == 4 && "translator"@.len() == 10 && "switcher"@.len() == 8 && "ascii_composer"@.len() == 14);
    assert(section(p, "menu"@) == Some(menu1));
    assert(section(p, "translator"@) == Some(t1));
    assert(section(p, "switcher"@) == Some(w1));
    assert(section(p, "ascii_composer"@) == Some(a2));
    assert("enable_encoder"@.len() == 14 && "enable_sentence"@.len() == 15 && "enable_user_dict"@.len() == 16
        && "encode_commit_history"@.len() == 21);
    assert("caption"@[0] != "hotkeys"@[0]);
    assert("fold_options"@.len() == 12 && "abbreviate_options"@.len() == 18 && "caption"@.len() == 7);
    assert("Shift_L"@[6] != "Shift_R"@[6]);
    assert("Caps_Lock"@.len() == 9 && "Shift_L"@.len() == 7);
    assert("good_old_caps_lock"@.len() == 18 && "switch_key"@.len() == 10);
    assert(section(a2, "switch_key"@) == Some(k1));
}

} // verus!
