use vstd::prelude::*;

use crate::commands::dict::{id_chars_bad, id_length_bad, id_problem};
use crate::rime::config::{RimeConfig, contains_dot_dot, data_dir_of, has_dot_dot, joined_path, path_join, TargetOs};
use crate::rime::order::{KeyModel, SortKey, keys_view, sort_by_keys, sorted_by_keys};
use crate::rime::patch::strings_view;
use crate::rime::text::{chars_of, ends_with, has_prefix, has_suffix, join_chars, joined, push_all, starts_with, string_of, vecs_view};

verus! {

/// What a backup is: its id (a timestamp), when and why it was made, and
/// what it holds.
pub struct BackupInfo {
    pub id: String,
    pub created_at: String,
    pub backup_type: String,
    pub file_count: usize,
    pub total_size: i64,
    pub note: Option<String>,
}

/// A backup with its files.
pub struct BackupDetail {
    pub info: BackupInfo,
    pub files: Vec<BackupFile>,
}

/// A file of a backup, by its path inside the backup.
pub struct BackupFile {
    pub name: String,
    pub size: i64,
    pub modified: String,
}

/// A file of a backup beside the current one (`None` when there is none).
pub struct FileDiff {
    pub file_name: String,
    pub current: Option<String>,
    pub backup: String,
}

/// Directories of the user directory that backups leave out: the backups
/// themselves, the build output and the staging areas of a restore.
pub open spec fn excluded_dir(name: Seq<char>) -> bool {
    name == "backups"@ || name == "build"@ || name == ".restore_temp"@ || has_prefix(name, ".restore_temp"@)
}

pub fn is_backup_excluded_dir(name: &str) -> (r: bool)
    ensures
        r == excluded_dir(name@),
{
    let n = name.to_string();
    n == "backups".to_string() || n == "build".to_string() || n == ".restore_temp".to_string() || starts_with(
        name,
        ".restore_temp",
    )
}

/// The refusal of a backup id, if any.
pub open spec fn backup_id_error(id: Seq<char>) -> Option<Seq<char>> {
    if id_length_bad(id) {
        Some("Invalid backup ID"@)
    } else if id_chars_bad(id) {
        Some("Backup ID contains invalid characters"@)
    } else {
        None
    }
}

pub fn validate_backup_id(id: &str) -> (r: Result<(), String>)
    ensures
        match backup_id_error(id@) {
            Some(e) => r matches Err(m) && m@ == e,
            None => r is Ok,
        },
{
    match id_problem(id) {
        1 => Err("Invalid backup ID".to_string()),
        2 => Err("Backup ID contains invalid characters".to_string()),
        _ => Ok(()),
    }
}

/// A file name of a backup that is refused for its shape: absolute, or `.`.
pub open spec fn file_name_refused(name: Seq<char>) -> bool {
    (name.len() > 0 && (name[0] == '/' || name[0] == '\\')) || name == "."@
}

/// The refusal of a file name inside a backup: one holding `..` could leave
/// the backup; an absolute one or `.` names no file in it.
pub open spec fn file_name_error(name: Seq<char>) -> Option<Seq<char>> {
    if contains_dot_dot(name) {
        Some("Invalid file name: path traversal not allowed"@)
    } else if file_name_refused(name) {
        Some("文件名无效"@)
    } else {
        None
    }
}

/// Checks the file-name rules of a name inside a backup: no `..`, not
/// absolute, not `.`.
pub fn validate_file_name(name: &str) -> (r: Result<(), String>)
    ensures
        match file_name_error(name@) {
            Some(e) => r matches Err(m) && m@ == e,
            None => r is Ok,
        },
{
    if has_dot_dot(name) {
        return Err("Invalid file name: path traversal not allowed".to_string());
    }
    let cs = chars_of(name);
    if (cs.len() > 0 && (cs[0] == '/' || cs[0] == '\\')) || name.to_string() == ".".to_string() {
        return Err("文件名无效".to_string());
    }
    Ok(())
}

/// The categories a backup covers: those asked for, or the whole user
/// directory when none is; and whether the whole directory is covered.
pub fn backup_categories(categories: Vec<String>) -> (r: (Vec<String>, bool))
    ensures
        categories@.len() == 0 ==> (strings_view(r.0@) == seq!["full"@]),
        categories@.len() > 0 ==> r.0@ == categories@,
        r.1 == exists|i: int| 0 <= i < r.0@.len() && (#[trigger] r.0@[i])@ == "full"@,
{
    let cats = if categories.len() == 0 {
        let mut v: Vec<String> = Vec::new();
        v.push("full".to_string());
        assert(strings_view(v@) =~= seq!["full"@]);
        v
    } else {
        categories
    };
    let mut full = false;
    let mut i: usize = 0;
    while i < cats.len()
        invariant
            i <= cats@.len(),
            full == exists|j: int| 0 <= j < i && (#[trigger] cats@[j])@ == "full"@,
        decreases cats@.len() - i,
    {
        if cats[i] == "full".to_string() {
            full = true;
        }
        i = i + 1;
    }
    (cats, full)
}

/// Where the files of a backup category are looked for.
pub enum CategoryPlan {
    /// These files, those that exist.
    Files(Vec<String>),
    /// The files directly in a directory whose names end with one of the
    /// suffixes.
    DirFiles(String, Vec<String>),
    /// Every file under a directory, when it exists.
    AllFilesUnder(String),
    /// The whole user directory but the excluded directories.
    UserDir,
}

pub open spec fn in_dir(dir: Seq<char>, name: Seq<char>) -> Seq<char> {
    joined_path(dir, name)
}

/// The files of the `core` category on a platform.
pub open spec fn core_files(cfg: RimeConfig, os: TargetOs) -> Seq<Seq<char>> {
    let u = cfg.user_dir@;
    let common = seq![in_dir(u, "default.custom.yaml"@), in_dir(u, "installation.yaml"@), in_dir(u, "user.yaml"@)];
    match os {
        TargetOs::MacOs => common + seq![
            in_dir(u, "default.yaml"@),
            in_dir(u, "squirrel.yaml"@),
            in_dir(u, "squirrel.custom.yaml"@),
        ],
        TargetOs::Windows => common + seq![
            in_dir(data_dir_of(cfg), "default.yaml"@),
            in_dir(data_dir_of(cfg), "weasel.yaml"@),
            in_dir(u, "weasel.custom.yaml"@),
        ],
        TargetOs::Other => common,
    }
}

/// Where a category's files are looked for, or `None` for an unknown
/// category.
pub open spec fn category_plan_matches(p: CategoryPlan, category: Seq<char>, cfg: RimeConfig, os: TargetOs) -> bool {
    let u = cfg.user_dir@;
    if category == "core"@ {
        p matches CategoryPlan::Files(fs) && strings_view(fs@) == core_files(cfg, os)
    } else if category == "schemas"@ {
        p matches CategoryPlan::DirFiles(d, sfx) && d@ == u && strings_view(sfx@) == seq![".schema.yaml"@, ".schema.yml"@]
    } else if category == "themes"@ {
        p matches CategoryPlan::Files(fs) && strings_view(fs@) == seq![
            in_dir(u, "squirrel.custom.yaml"@),
            in_dir(u, "weasel.custom.yaml"@),
            in_dir(u, "style.custom.yaml"@),
        ]
    } else if category == "dicts"@ {
        p matches CategoryPlan::DirFiles(d, sfx) && d@ == in_dir(u, "user_dictionaries"@) && strings_view(sfx@) == seq![".userdb.txt"@]
    } else if category == "models"@ {
        p matches CategoryPlan::DirFiles(d, sfx) && d@ == u && strings_view(sfx@) == seq![".gram"@]
    } else if category == "opencc"@ {
        p matches CategoryPlan::AllFilesUnder(d) && d@ == in_dir(u, "opencc"@)
    } else if category == "lua"@ {
        p matches CategoryPlan::AllFilesUnder(d) && d@ == in_dir(u, "lua"@)
    } else {
        category == "full"@ && p is UserDir
    }
}

pub open spec fn is_known_category(category: Seq<char>) -> bool {
    category == "core"@ || category == "schemas"@ || category == "themes"@ || category == "dicts"@ || category
        == "models"@ || category == "opencc"@ || category == "lua"@ || category == "full"@
}

fn one(s: &str) -> (v: Vec<String>)
    ensures
        strings_view(v@) == seq![s@],
{
    let mut v: Vec<String> = Vec::new();
    v.push(s.to_string());
    assert(strings_view(v@) =~= seq![s@]);
    v
}

/// Where the files of a backup category are looked for on a platform;
/// refused for an unknown category.
pub fn category_plan(category: &str, cfg: &RimeConfig, os: TargetOs) -> (r: Result<CategoryPlan, String>)
    ensures
        is_known_category(category@) ==> (r matches Ok(p) && category_plan_matches(p, category@, *cfg, os)),
        !is_known_category(category@) ==> (r matches Err(m) && m@ == "Unknown backup category: "@ + category@),
{
    let c = category.to_string();
    let u = cfg.user_dir.as_str();
    if c == "core".to_string() {
        let mut fs: Vec<String> = Vec::new();
        fs.push(path_join(u, "default.custom.yaml"));
        fs.push(path_join(u, "installation.yaml"));
        fs.push(path_join(u, "user.yaml"));
        match os {
            TargetOs::MacOs => {
                fs.push(path_join(u, "default.yaml"));
                fs.push(path_join(u, "squirrel.yaml"));
                fs.push(path_join(u, "squirrel.custom.yaml"));
            },
            TargetOs::Windows => {
                let d = cfg.rime_data_dir();
                fs.push(path_join(d.as_str(), "default.yaml"));
                fs.push(path_join(d.as_str(), "weasel.yaml"));
                fs.push(path_join(u, "weasel.custom.yaml"));
            },
            TargetOs::Other => {},
        }
        assert(strings_view(fs@) =~= core_files(*cfg, os));
        Ok(CategoryPlan::Files(fs))
    } else if c == "schemas".to_string() {
        let mut sfx: Vec<String> = Vec::new();
        sfx.push(".schema.yaml".to_string());
        sfx.push(".schema.yml".to_string());
        assert(strings_view(sfx@) =~= seq![".schema.yaml"@, ".schema.yml"@]);
        Ok(CategoryPlan::DirFiles(cfg.user_dir.clone(), sfx))
    } else if c == "themes".to_string() {
        let mut fs: Vec<String> = Vec::new();
        fs.push(path_join(u, "squirrel.custom.yaml"));
        fs.push(path_join(u, "weasel.custom.yaml"));
        fs.push(path_join(u, "style.custom.yaml"));
        assert(strings_view(fs@) =~= seq![
            in_dir(cfg.user_dir@, "squirrel.custom.yaml"@),
            in_dir(cfg.user_dir@, "weasel.custom.yaml"@),
            in_dir(cfg.user_dir@, "style.custom.yaml"@),
        ]);
        Ok(CategoryPlan::Files(fs))
    } else if c == "dicts".to_string() {
        Ok(CategoryPlan::DirFiles(path_join(u, "user_dictionaries"), one(".userdb.txt")))
    } else if c == "models".to_string() {
        Ok(CategoryPlan::DirFiles(cfg.user_dir.clone(), one(".gram")))
    } else if c == "opencc".to_string() {
        Ok(CategoryPlan::AllFilesUnder(path_join(u, "opencc")))
    } else if c == "lua".to_string() {
        Ok(CategoryPlan::AllFilesUnder(path_join(u, "lua")))
    } else if c == "full".to_string() {
        Ok(CategoryPlan::UserDir)
    } else {
        proof {
            reveal_strlit("Unknown backup category: ");
        }
        let mut m = chars_of("Unknown backup category: ");
        push_all(&mut m, chars_of(category).as_slice());
        Err(string_of(m.as_slice()))
    }
}

/// Whether a name ends with one of the suffixes.
pub open spec fn ends_with_any(name: Seq<char>, sfx: Seq<Seq<char>>) -> bool {
    exists|i: int| 0 <= i < sfx.len() && has_suffix(name, #[trigger] sfx[i])
}

pub fn name_ends_with_any(name: &str, sfx: &Vec<String>) -> (r: bool)
    ensures
        r == ends_with_any(name@, strings_view(sfx@)),
{
    let mut i: usize = 0;
    while i < sfx.len()
        invariant
            i <= sfx@.len(),
            forall|j: int| 0 <= j < i ==> !has_suffix(name@, #[trigger] strings_view(sfx@)[j]),
        decreases sfx@.len() - i,
    {
        if ends_with(name, sfx[i].as_str()) {
            assert(has_suffix(name@, strings_view(sfx@)[i as int]));
            return true;
        }
        i = i + 1;
    }
    false
}

/// Whether an entry of the user directory is left out of a deployment
/// backup: an excluded directory, or a model file when models are not kept.
pub open spec fn deploy_skips(name: Seq<char>, is_dir: bool, include_models: bool) -> bool {
    (is_dir && excluded_dir(name)) || (!include_models && has_suffix(name, ".gram"@))
}

pub fn deploy_backup_skips(name: &str, is_dir: bool, include_models: bool) -> (r: bool)
    ensures
        r == deploy_skips(name@, is_dir, include_models),
{
    (is_dir && is_backup_excluded_dir(name)) || (!include_models && ends_with(name, ".gram"))
}

/// The note of a deployment backup.
pub open spec fn deploy_note(include_models: bool) -> Seq<char> {
    if include_models {
        "部署前自动备份（含模型）"@
    } else {
        "部署前自动备份（不含模型）"@
    }
}

pub fn deploy_backup_note(include_models: bool) -> (r: String)
    ensures
        r@ == deploy_note(include_models),
{
    if include_models {
        "部署前自动备份（含模型）".to_string()
    } else {
        "部署前自动备份（不含模型）".to_string()
    }
}

/// A path inside a backup made flat: every `/` and `\` becomes `_`.
pub open spec fn flat_name(name: Seq<char>) -> Seq<char> {
    name.map_values(|c: char| if c == '/' || c == '\\' { '_' } else { c })
}

pub fn safe_backup_name(name: &str) -> (r: String)
    ensures
        r@ == flat_name(name@),
{
    let cs = chars_of(name);
    let mut out: Vec<char> = Vec::new();
    let mut i: usize = 0;
    while i < cs.len()
        invariant
            i <= cs@.len(),
            cs@ == name@,
            out@ == flat_name(name@).take(i as int),
        decreases cs@.len() - i,
    {
        let c = cs[i];
        out.push(if c == '/' || c == '\\' { '_' } else { c });
        i = i + 1;
        assert(out@ =~= flat_name(name@).take(i as int));
    }
    assert(flat_name(name@).take(i as int) =~= flat_name(name@));
    string_of(out.as_slice())
}

/// The message of a restore that failed for some files.
pub open spec fn restore_errors_text(errors: Seq<Seq<char>>) -> Seq<char> {
    "Restore completed with errors: "@ + joined(errors, "; "@)
}

pub fn restore_error_message(errors: &Vec<String>) -> (r: String)
    ensures
        r@ == restore_errors_text(strings_view(errors@)),
{
    proof {
        reveal_strlit("Restore completed with errors: ");
        reveal_strlit("; ");
    }
    let mut parts: Vec<Vec<char>> = Vec::new();
    let mut i: usize = 0;
    while i < errors.len()
        invariant
            i <= errors@.len(),
            vecs_view(parts@) == strings_view(errors@).take(i as int),
        decreases errors@.len() - i,
    {
        let ghost before = parts@;
        parts.push(chars_of(errors[i].as_str()));
        assert(vecs_view(parts@) =~= vecs_view(before).push(errors@[i as int]@));
        i = i + 1;
        assert(vecs_view(parts@) =~= strings_view(errors@).take(i as int));
    }
    assert(strings_view(errors@).take(i as int) =~= strings_view(errors@));
    let mut m = chars_of("Restore completed with errors: ");
    let j = join_chars(&parts, chars_of("; ").as_slice());
    push_all(&mut m, j.as_slice());
    string_of(m.as_slice())
}

pub struct InfoModel {
    pub created_at: Seq<char>,
}

/// The backups, newest first (stably, by their creation time texts).
pub open spec fn backups_newest_first(infos: Seq<BackupInfo>) -> Seq<BackupInfo> {
    sorted_by_keys(infos, infos.map_values(|b: BackupInfo| KeyModel::Text(b.created_at@)), true)
}

pub fn sort_backups(infos: Vec<BackupInfo>) -> (r: Vec<BackupInfo>)
    ensures
        r@ == backups_newest_first(infos@),
{
    let mut keys: Vec<SortKey> = Vec::new();
    let mut i: usize = 0;
    while i < infos.len()
        invariant
            i <= infos@.len(),
            keys_view(keys@) == infos@.take(i as int).map_values(|b: BackupInfo| KeyModel::Text(b.created_at@)),
        decreases infos@.len() - i,
    {
        let ghost before = keys@;
        keys.push(SortKey::Text(infos[i].created_at.clone()));
        assert(keys_view(keys@) =~= keys_view(before).push(KeyModel::Text(infos@[i as int].created_at@)));
        i = i + 1;
        assert(keys_view(keys@) =~= infos@.take(i as int).map_values(|b: BackupInfo| KeyModel::Text(b.created_at@)));
    }
    assert(infos@.take(i as int) =~= infos@);
    sort_by_keys(infos, keys, true)
}

/// The files of a backup, by name.
pub open spec fn files_by_name(files: Seq<BackupFile>) -> Seq<BackupFile> {
    sorted_by_keys(files, files.map_values(|f: BackupFile| KeyModel::Text(f.name@)), false)
}

pub fn sort_backup_files(files: Vec<BackupFile>) -> (r: Vec<BackupFile>)
    ensures
        r@ == files_by_name(files@),
{
    let mut keys: Vec<SortKey> = Vec::new();
    let mut i: usize = 0;
    while i < files.len()
        invariant
            i <= files@.len(),
            keys_view(keys@) == files@.take(i as int).map_values(|f: BackupFile| KeyModel::Text(f.name@)),
        decreases files@.len() - i,
    {
        let ghost before = keys@;
        keys.push(SortKey::Text(files[i].name.clone()));
        assert(keys_view(keys@) =~= keys_view(before).push(KeyModel::Text(files@[i as int].name@)));
        i = i + 1;
        assert(keys_view(keys@) =~= files@.take(i as int).map_values(|f: BackupFile| KeyModel::Text(f.name@)));
    }
    assert(files@.take(i as int) =~= files@);
    sort_by_keys(files, keys, false)
}

/// The message of a backup that cannot be found.
pub fn backup_not_found(id: &str) -> (r: String)
    ensures
        r@ == "Backup '"@ + id@ + "' not found"@,
{
    let mut m = chars_of("Backup '");
    push_all(&mut m, chars_of(id).as_slice());
    push_all(&mut m, chars_of("' not found").as_slice());
    string_of(m.as_slice())
}

} // verus!
