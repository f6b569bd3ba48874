use vstd::prelude::*;

use crate::commands::dict::{id_chars_bad, id_length_bad, id_problem};
use crate::rime::config::{get_string, key, string_at};
use crate::rime::edit::string_node;
use crate::rime::order::{KeyModel, SortKey, keys_view, sort_by_keys, sorted_by_keys};
use crate::rime::patch::strings_view;
use crate::rime::text::{chars_of, ends_with, has_suffix, replace_all, replaced, string_of, trim_chars, trimmed};
use crate::rime::yaml::{Entries, YamlMap, YamlView, map_insert, map_remove};

verus! {

/// The sync settings of this installation.
pub struct SyncSettings {
    pub sync_dir: Option<String>,
    pub installation_id: String,
    pub sync_user_dict: bool,
    pub sync_config: bool,
}

/// Where syncing stands.
pub struct SyncStatus {
    pub configured: bool,
    pub last_sync_time: Option<String>,
    pub sync_dir_exists: bool,
    pub current_id: String,
}

/// Another device that syncs through the same directory.
pub struct SyncedDevice {
    pub id: String,
    pub last_sync: String,
    pub synced_dicts: Vec<String>,
    pub synced_configs: Vec<String>,
}

/// What a sync came to.
pub struct SyncResult {
    pub success: bool,
    pub uploaded: Vec<String>,
    pub downloaded: Vec<String>,
    pub errors: Vec<String>,
}

pub open spec fn is_lower_hex(c: char) -> bool {
    ('0' <= c && c <= '9') || ('a' <= c && c <= 'f')
}

/// The text of a random (version 4) UUID: 32 lower-case hex digits in groups
/// of 8, 4, 4, 4 and 12 joined by dashes, the version digit being `4` and
/// the variant digit one of `8`, `9`, `a`, `b`.
pub open spec fn is_uuid_v4_text(s: Seq<char>) -> bool {
    &&& s.len() == 36
    &&& forall|i: int|
        0 <= i < 36 ==> if i == 8 || i == 13 || i == 18 || i == 23 {
            s[i] == '-'
        } else {
            is_lower_hex(#[trigger] s[i])
        }
    &&& s[14] == '4'
    &&& (s[19] == '8' || s[19] == '9' || s[19] == 'a' || s[19] == 'b')
}

/// A fresh installation id (`uuid::Uuid::new_v4` written with `to_string`).
/// Claimed of the crate: the text is a version-4 UUID in its hyphenated
/// lower-case form; its random digits are not stated.
#[verifier::external_body]
fn new_installation_id() -> (r: String)
    ensures
        is_uuid_v4_text(r@),
{
    uuid::Uuid::new_v4().to_string()
}

/// The settings an installation document holds, with `fresh_id` as the id
/// when it names none.
pub open spec fn settings_match(s: SyncSettings, dict: Entries, fresh_id: Seq<char>) -> bool {
    &&& match s.sync_dir {
        Some(d) => string_at(dict, "sync_dir"@) == Some(d@),
        None => string_at(dict, "sync_dir"@) is None,
    }
    &&& s.installation_id@ == match string_at(dict, "installation_id"@) {
        Some(i) => i,
        None => fresh_id,
    }
    &&& s.sync_user_dict
    &&& s.sync_config
}

/// The sync settings of `installation.yaml`, given the id to use when it
/// names none.
pub fn sync_settings_from(dict: &YamlMap, fresh_id: String) -> (s: SyncSettings)
    ensures
        settings_match(s, dict@, fresh_id@),
{
    let sync_dir = get_string(dict, "sync_dir");
    let installation_id = match get_string(dict, "installation_id") {
        Some(i) => i,
        None => fresh_id,
    };
    SyncSettings { sync_dir, installation_id, sync_user_dict: true, sync_config: true }
}

/// The sync settings of `installation.yaml`; an installation without an id
/// gets a fresh random one.
pub fn get_sync_settings(dict: &YamlMap) -> (s: SyncSettings)
    ensures
        string_at(dict@, "installation_id"@) is Some ==> settings_match(s, dict@, Seq::empty()),
        string_at(dict@, "installation_id"@) is None ==> is_uuid_v4_text(s.installation_id@) && settings_match(
            s,
            dict@,
            s.installation_id@,
        ),
{
    match get_string(dict, "installation_id") {
        Some(_) => sync_settings_from(dict, String::new()),
        None => sync_settings_from(dict, new_installation_id()),
    }
}

/// The refusal of an installation id, if any.
pub open spec fn installation_id_error(id: Seq<char>) -> Option<Seq<char>> {
    if id_length_bad(id) {
        Some("Invalid installation ID"@)
    } else if id_chars_bad(id) {
        Some("Installation ID contains invalid characters"@)
    } else {
        None
    }
}

pub fn validate_installation_id(id: &str) -> (r: Result<(), String>)
    ensures
        match installation_id_error(id@) {
            Some(e) => r matches Err(m) && m@ == e,
            None => r is Ok,
        },
{
    match id_problem(id) {
        1 => Err("Invalid installation ID".to_string()),
        2 => Err("Installation ID contains invalid characters".to_string()),
        _ => Ok(()),
    }
}

/// The installation document with the settings written in: `sync_dir` set
/// or removed, then `installation_id` set.
pub open spec fn saved_sync(dict: Entries, s: SyncSettings) -> Entries {
    let d1 = match s.sync_dir {
        Some(d) => map_insert(dict, "sync_dir"@, YamlView::Str(d@)),
        None => map_remove(dict, "sync_dir"@),
    };
    map_insert(d1, "installation_id"@, YamlView::Str(s.installation_id@))
}

/// Writes the sync settings into `installation.yaml`, after checking the id.
/// On an error the document is left as it was.
pub fn save_sync_settings(dict: &mut YamlMap, settings: SyncSettings) -> (r: Result<(), String>)
    ensures
        match installation_id_error(settings.installation_id@) {
            Some(e) => r matches Err(m) && m@ == e && final(dict)@ == old(dict)@,
            None => r is Ok && final(dict)@ == saved_sync(old(dict)@, settings),
        },
{
    match validate_installation_id(settings.installation_id.as_str()) {
        Err(e) => return Err(e),
        Ok(()) => {},
    }
    let ghost s = settings;
    match settings.sync_dir {
        Some(d) => dict.insert(key("sync_dir"), string_node(d)),
        None => {
            dict.remove(&key("sync_dir"));
        },
    }
    dict.insert(key("installation_id"), string_node(settings.installation_id));
    Ok(())
}

/// Saved sync settings read back as they were: the saved document names the
/// saved id, and reads as the saved settings (the two sync switches are not
/// stored and always read as on, so the law is stated where they are on).
pub proof fn saved_sync_reads_back(dict: Entries, s: SyncSettings)
    requires
        crate::rime::yaml::keys_unique(dict),
        s.sync_user_dict,
        s.sync_config,
    ensures
        string_at(saved_sync(dict, s), "installation_id"@) == Some(s.installation_id@),
        settings_match(s, saved_sync(dict, s), Seq::empty()),
{
    reveal_strlit("sync_dir");
    reveal_strlit("installation_id");
    assert("sync_dir"@.len() != "installation_id"@.len());
    let d1 = match s.sync_dir {
        Some(d) => map_insert(dict, "sync_dir"@, YamlView::Str(d@)),
        None => map_remove(dict, "sync_dir"@),
    };
    match s.sync_dir {
        Some(d) => crate::rime::yaml::lemma_insert_get(dict, "sync_dir"@, YamlView::Str(d@)),
        None => crate::rime::yaml::lemma_remove_unique(dict, "sync_dir"@),
    }
    crate::rime::yaml::lemma_insert_get(d1, "installation_id"@, YamlView::Str(s.installation_id@));
    crate::rime::yaml::lemma_insert_other(d1, "installation_id"@, YamlView::Str(s.installation_id@), "sync_dir"@);
}

/// The time of the last sync, from the text of the marker file (`None` when
/// it could not be read): the trimmed text, when not empty.
pub open spec fn last_sync_of(marker: Option<Seq<char>>) -> Option<Seq<char>> {
    match marker {
        Some(t) => if trimmed(t).len() > 0 {
            Some(trimmed(t))
        } else {
            None
        },
        None => None,
    }
}

pub fn last_sync_time(marker: Option<String>) -> (r: Option<String>)
    ensures
        match last_sync_of(match marker {
            Some(t) => Some(t@),
            None => None,
        }) {
            Some(t) => r matches Some(x) && x@ == t,
            None => r is None,
        },
{
    match marker {
        Some(t) => {
            let v = trim_chars(chars_of(t.as_str()).as_slice());
            if v.len() > 0 {
                Some(string_of(v.as_slice()))
            } else {
                None
            }
        },
        None => None,
    }
}

/// The sync status: configured when a sync directory is set.
pub fn sync_status(settings: SyncSettings, sync_dir_exists: bool, last_sync: Option<String>) -> (r: SyncStatus)
    ensures
        r.configured == settings.sync_dir is Some,
        r.sync_dir_exists == sync_dir_exists,
        r.last_sync_time == last_sync,
        r.current_id == settings.installation_id,
{
    SyncStatus {
        configured: settings.sync_dir.is_some(),
        last_sync_time: last_sync,
        sync_dir_exists,
        current_id: settings.installation_id,
    }
}

/// The dictionaries a device synced: its `*.userdb.txt` files, named with
/// every `.userdb.txt` removed.
pub open spec fn synced_dicts_of(names: Seq<String>) -> Seq<Seq<char>>
    decreases names.len(),
{
    if names.len() == 0 {
        Seq::empty()
    } else if has_suffix(names.last()@, ".userdb.txt"@) {
        synced_dicts_of(names.drop_last()).push(replaced(names.last()@, ".userdb.txt"@, Seq::empty()))
    } else {
        synced_dicts_of(names.drop_last())
    }
}

/// The configuration files a device synced: its other `*.yaml` files.
pub open spec fn synced_configs_of(names: Seq<String>) -> Seq<Seq<char>>
    decreases names.len(),
{
    if names.len() == 0 {
        Seq::empty()
    } else if !has_suffix(names.last()@, ".userdb.txt"@) && has_suffix(names.last()@, ".yaml"@) {
        synced_configs_of(names.drop_last()).push(names.last()@)
    } else {
        synced_configs_of(names.drop_last())
    }
}

/// What a device synced, from the names of the files in its directory.
pub fn device_files(names: &Vec<String>) -> (r: (Vec<String>, Vec<String>))
    ensures
        strings_view(r.0@) == synced_dicts_of(names@),
        strings_view(r.1@) == synced_configs_of(names@),
{
    proof {
        reveal_strlit(".userdb.txt");
        reveal_strlit("");
    }
    assert(""@ =~= Seq::<char>::empty());
    let mut dicts: Vec<String> = Vec::new();
    let mut configs: Vec<String> = Vec::new();
    let mut i: usize = 0;
    while i < names.len()
        invariant
            i <= names@.len(),
            ""@ == Seq::<char>::empty(),
            strings_view(dicts@) == synced_dicts_of(names@.take(i as int)),
            strings_view(configs@) == synced_configs_of(names@.take(i as int)),
        decreases names@.len() - i,
    {
        let ghost bd = dicts@;
        let ghost bc = configs@;
        assert(names@.take(i + 1).drop_last() =~= names@.take(i as int));
        assert(names@.take(i + 1).last() == names@[i as int]);
        let n = names[i].as_str();
        if ends_with(n, ".userdb.txt") {
            proof {
                reveal_strlit(".userdb.txt");
            }
            dicts.push(replace_all(n, ".userdb.txt", ""));
            assert(strings_view(dicts@) =~= strings_view(bd).push(replaced(names@[i as int]@, ".userdb.txt"@, Seq::empty())));
        } else if ends_with(n, ".yaml") {
            configs.push(names[i].clone());
            assert(strings_view(configs@) =~= strings_view(bc).push(names@[i as int]@));
        }
        i = i + 1;
    }
    assert(names@.take(i as int) =~= names@);
    (dicts, configs)
}

/// A device directory found in the sync directory: its name, when it was
/// last modified, and the names of its files.
pub struct DeviceDir {
    pub id: String,
    pub last_sync: String,
    pub file_names: Vec<String>,
}

/// The other devices, most recently synced first (stably, by their times).
pub open spec fn other_devices(dirs: Seq<DeviceDir>, own_id: Seq<char>) -> Seq<DeviceDir>
    decreases dirs.len(),
{
    if dirs.len() == 0 {
        Seq::empty()
    } else if dirs.last().id@ == own_id {
        other_devices(dirs.drop_last(), own_id)
    } else {
        other_devices(dirs.drop_last(), own_id).push(dirs.last())
    }
}

/// A device as listed from its directory.
pub open spec fn device_listed(d: SyncedDevice, dir: DeviceDir) -> bool {
    &&& d.id@ == dir.id@
    &&& d.last_sync@ == dir.last_sync@
    &&& strings_view(d.synced_dicts@) == synced_dicts_of(dir.file_names@)
    &&& strings_view(d.synced_configs@) == synced_configs_of(dir.file_names@)
}

/// The devices that sync through the same directory, other than this one,
/// most recently synced first.
pub fn list_synced_devices(dirs: &Vec<DeviceDir>, own_id: &String) -> (r: Vec<SyncedDevice>)
    ensures
        ({
            let others = other_devices(dirs@, own_id@);
            let order = sorted_by_keys(others, others.map_values(|d: DeviceDir| KeyModel::Text(d.last_sync@)), true);
            r@.len() == order.len() && forall|i: int| 0 <= i < r@.len() ==> device_listed(#[trigger] r@[i], order[i])
        }),
{
    let mut devices: Vec<SyncedDevice> = Vec::new();
    let mut keys: Vec<SortKey> = Vec::new();
    let ghost mut others: Seq<DeviceDir> = Seq::empty();
    let mut i: usize = 0;
    while i < dirs.len()
        invariant
            i <= dirs@.len(),
            others == other_devices(dirs@.take(i as int), own_id@),
            devices@.len() == others.len(),
            forall|j: int| 0 <= j < devices@.len() ==> device_listed(#[trigger] devices@[j], others[j]),
            keys_view(keys@) == others.map_values(|d: DeviceDir| KeyModel::Text(d.last_sync@)),
        decreases dirs@.len() - i,
    {
        assert(dirs@.take(i + 1).drop_last() =~= dirs@.take(i as int));
        assert(dirs@.take(i + 1).last() == dirs@[i as int]);
        let d = &dirs[i];
        if d.id != *own_id {
            let (dicts, configs) = device_files(&d.file_names);
            let ghost before = keys@;
            devices.push(SyncedDevice { id: d.id.clone(), last_sync: d.last_sync.clone(), synced_dicts: dicts, synced_configs: configs });
            keys.push(SortKey::Text(d.last_sync.clone()));
            assert(keys_view(keys@) =~= keys_view(before).push(KeyModel::Text(dirs@[i as int].last_sync@)));
            proof {
                others = others.push(dirs@[i as int]);
            }
            assert(keys_view(keys@) =~= others.map_values(|d: DeviceDir| KeyModel::Text(d.last_sync@)));
        }
        i = i + 1;
    }
    assert(dirs@.take(i as int) =~= dirs@);
    let ghost unsorted = devices@;
    let ghost kv = keys_view(keys@);
    let r = sort_by_keys(devices, keys, true);
    proof {
        let rel = |d: SyncedDevice, x: DeviceDir| device_listed(d, x);
        assert forall|j: int| 0 <= j < unsorted.len() implies #[trigger] rel(unsorted[j], others[j]) by {
            assert(device_listed(unsorted[j], others[j]));
        }
        crate::rime::order::lemma_sorted_pairs(unsorted, others, kv, true, rel);
        let order = sorted_by_keys(others, kv, true);
        assert forall|j: int| 0 <= j < r@.len() implies device_listed(#[trigger] r@[j], order[j]) by {
            assert(rel(sorted_by_keys(unsorted, kv, true)[j], order[j]));
        }
    }
    r
}

/// How long, in seconds, syncs must wait on each other.
pub const SYNC_THROTTLE_SECS: u64 = 3;

/// Refuses a sync that follows the last one too soon (`elapsed` is the
/// number of whole seconds since the last sync, `None` when there was none).
pub fn check_sync_throttle(elapsed: Option<u64>) -> (r: Result<(), String>)
    ensures
        match elapsed {
            Some(s) => s < 3 ==> (r matches Err(m) && m@ == "操作过于频繁，请 3 秒后再试"@),
            None => true,
        },
        (match elapsed {
            Some(s) => s >= 3,
            None => true,
        }) ==> r is Ok,
{
    match elapsed {
        Some(s) => if s < SYNC_THROTTLE_SECS {
            Err("操作过于频繁，请 3 秒后再试".to_string())
        } else {
            Ok(())
        },
        None => Ok(()),
    }
}

/// Refuses a sync when no sync directory is set.
pub fn check_sync_configured(settings: &SyncSettings) -> (r: Result<(), String>)
    ensures
        settings.sync_dir is None ==> (r matches Err(m) && m@ == "请先在「同步设置」中配置同步目录"@),
        settings.sync_dir is Some ==> r is Ok,
{
    if settings.sync_dir.is_none() {
        return Err("请先在「同步设置」中配置同步目录".to_string());
    }
    Ok(())
}

/// What a sync came to: done when the input method was running to receive
/// the signal, else an error that says it was not.
pub fn sync_result(process_found: bool) -> (r: SyncResult)
    ensures
        r.success == process_found,
        r.downloaded@.len() == 0,
        process_found ==> r.errors@.len() == 0 && strings_view(r.uploaded@) == seq!["Rime 原生同步已触发"@],
        !process_found ==> r.uploaded@.len() == 0 && strings_view(r.errors@) == seq![
            "输入法进程未运行，无法执行同步。请确保 Rime 输入法正在运行。"@,
        ],
{
    if process_found {
        let mut up: Vec<String> = Vec::new();
        up.push("Rime 原生同步已触发".to_string());
        assert(strings_view(up@) =~= seq!["Rime 原生同步已触发"@]);
        SyncResult { success: true, uploaded: up, downloaded: Vec::new(), errors: Vec::new() }
    } else {
        let mut errs: Vec<String> = Vec::new();
        errs.push("输入法进程未运行，无法执行同步。请确保 Rime 输入法正在运行。".to_string());
        assert(strings_view(errs@) =~= seq!["输入法进程未运行，无法执行同步。请确保 Rime 输入法正在运行。"@]);
        SyncResult { success: false, uploaded: Vec::new(), downloaded: Vec::new(), errors: errs }
    }
}

} // verus!
