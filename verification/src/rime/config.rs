use vstd::prelude::*;

use crate::rime::patch::merge;
use crate::rime::patch::merged;
use crate::rime::text::{chars_of, string_of};
use crate::rime::yaml::{
    Entries, YamlMap, YamlValue, YamlView, bool_of, copy_items, int_of, lemma_view_items, map_get,
    mapping_of, sequence_of, str_of, untag, view_items, float_bits_truncated,
};

verus! {

broadcast use vstd::string::group_string_axioms;

/// The platform the configuration is for.
#[derive(Debug, Clone, Copy, PartialEq, Eq, Structural)]
pub enum TargetOs {
    MacOs,
    Windows,
    Other,
}

/// The directories the operating system reports, each possibly unknown.
pub struct PlatformDirs {
    pub home_dir: Option<String>,
    pub current_dir: Option<String>,
    pub config_dir: Option<String>,
    pub data_dir: Option<String>,
}

/// Where Rime keeps its configuration on this machine.
pub struct RimeConfig {
    /// The Rime user root directory (`Rime/` on Windows, `~/Library/Rime` on macOS).
    pub user_dir: String,
    /// Windows only: `Rime/build/`, holding the compiled `default.yaml` and `weasel.yaml`.
    pub build_dir: Option<String>,
    pub style_file: String,
    pub style_custom: String,
    pub default_yaml: String,
    pub default_custom: String,
    /// The platform the configuration was detected on.
    pub os: TargetOs,
}

// ---------------------------------------------------------------------------
// Paths
// ---------------------------------------------------------------------------

/// `std::path::Path::join` on text: `name` adjoined to `base`.
pub uninterp spec fn joined_path(base: Seq<char>, name: Seq<char>) -> Seq<char>;

/// Joins a path and a name with std's `Path::join` (an absolute `name`
/// replaces `base`; the separator is the platform's). Claimed: the result is
/// a function of the two texts alone.
#[verifier::external_body]
pub(crate) fn path_join(base: &str, name: &str) -> (r: String)
    ensures
        r@ == joined_path(base@, name@),
{
    std::path::Path::new(base).join(name).to_string_lossy().into_owned()
}

/// Where the compiled style file and `default.yaml` are read: `build/` on
/// Windows when there is one, else the user directory.
pub open spec fn compiled_dir_of(c: RimeConfig) -> Seq<char> {
    match (c.build_dir, c.os) {
        (Some(b), TargetOs::Windows) => b@,
        _ => c.user_dir@,
    }
}

/// The directory of compiled configuration: `build/` when there is one,
/// else the user directory.
pub open spec fn data_dir_of(c: RimeConfig) -> Seq<char> {
    match c.build_dir {
        Some(b) => b@,
        None => c.user_dir@,
    }
}

pub open spec fn or_dot(d: Option<String>) -> Seq<char> {
    match d {
        Some(s) => s@,
        None => "."@,
    }
}

/// The root a Windows configuration lives under.
pub open spec fn windows_root(dirs: PlatformDirs) -> Seq<char> {
    joined_path(or_dot(dirs.config_dir), "Rime"@)
}

pub open spec fn contains_char(s: Seq<char>, c: char) -> bool {
    exists|i: int| 0 <= i < s.len() && s[i] == c
}

pub open spec fn contains_dot_dot(s: Seq<char>) -> bool {
    exists|i: int| 0 <= i < s.len() - 1 && #[trigger] s[i] == '.' && s[i + 1] == '.'
}

fn dir_or_dot(d: &Option<String>) -> (r: String)
    ensures
        r@ == or_dot(*d),
{
    match d {
        Some(s) => s.clone(),
        None => ".".to_string(),
    }
}

/// Whether a character occurs in a string.
pub fn has_char(s: &str, c: char) -> (r: bool)
    ensures
        r == contains_char(s@, c),
{
    let cs = chars_of(s);
    let mut i: usize = 0;
    while i < cs.len()
        invariant
            i <= cs@.len(),
            cs@ == s@,
            forall|j: int| 0 <= j < i ==> cs@[j] != c,
        decreases cs@.len() - i,
    {
        if cs[i] == c {
            return true;
        }
        i = i + 1;
    }
    false
}

/// Whether `..` occurs in a string.
pub fn has_dot_dot(s: &str) -> (r: bool)
    ensures
        r == contains_dot_dot(s@),
{
    let cs = chars_of(s);
    let mut i: usize = 0;
    while i < cs.len()
        invariant
            i <= cs@.len(),
            cs@ == s@,
            forall|j: int| 0 <= j < i && j < cs@.len() - 1 ==> !(#[trigger] cs@[j] == '.' && cs@[j + 1] == '.'),
        decreases cs@.len() - i,
    {
        if i + 1 < cs.len() && cs[i] == '.' && cs[i + 1] == '.' {
            return true;
        }
        i = i + 1;
    }
    false
}

impl RimeConfig {
    /// The directory whose existence decides `build_dir` on Windows.
    pub fn build_dir_candidate(dirs: &PlatformDirs) -> (r: String)
        ensures
            r@ == joined_path(windows_root(*dirs), "build"@),
    {
        let base = path_join(dir_or_dot(&dirs.config_dir).as_str(), "Rime");
        path_join(base.as_str(), "build")
    }

    /// The configuration for a platform, from the directories it reports and
    /// whether the Windows `build/` directory exists.
    pub fn detect(os: TargetOs, dirs: &PlatformDirs, build_dir_exists: bool) -> (c: RimeConfig)
        ensures
            os == TargetOs::MacOs ==> {
                &&& c.user_dir@ == joined_path(
                    match dirs.home_dir {
                        Some(h) => h@,
                        None => or_dot(dirs.current_dir),
                    },
                    "Library/Rime"@,
                )
                &&& c.build_dir is None
                &&& c.style_file@ == "squirrel.yaml"@
                &&& c.style_custom@ == "squirrel.custom.yaml"@
            },
            c.os == os,
            os == TargetOs::Windows ==> {
                &&& c.user_dir@ == windows_root(*dirs)
                &&& (build_dir_exists <==> c.build_dir is Some)
                &&& (c.build_dir matches Some(b) ==> b@ == joined_path(windows_root(*dirs), "build"@))
                &&& c.style_file@ == "weasel.yaml"@
                &&& c.style_custom@ == "weasel.custom.yaml"@
            },
            os == TargetOs::Other ==> {
                &&& c.user_dir@ == joined_path(or_dot(dirs.data_dir), "Rime"@)
                &&& c.build_dir is None
                &&& c.style_file@ == "rime.yaml"@
                &&& c.style_custom@ == "rime.custom.yaml"@
            },
            c.default_yaml@ == "default.yaml"@,
            c.default_custom@ == "default.custom.yaml"@,
    {
        match os {
            TargetOs::MacOs => {
                let home = match &dirs.home_dir {
                    Some(h) => h.clone(),
                    None => dir_or_dot(&dirs.current_dir),
                };
                RimeConfig {
                    user_dir: path_join(home.as_str(), "Library/Rime"),
                    build_dir: None,
                    style_file: "squirrel.yaml".to_string(),
                    style_custom: "squirrel.custom.yaml".to_string(),
                    default_yaml: "default.yaml".to_string(),
                    default_custom: "default.custom.yaml".to_string(),
                    os,
                }
            },
            TargetOs::Windows => {
                let base_dir = path_join(dir_or_dot(&dirs.config_dir).as_str(), "Rime");
                let build = if build_dir_exists {
                    Some(path_join(base_dir.as_str(), "build"))
                } else {
                    None
                };
                RimeConfig {
                    user_dir: base_dir,
                    build_dir: build,
                    style_file: "weasel.yaml".to_string(),
                    style_custom: "weasel.custom.yaml".to_string(),
                    default_yaml: "default.yaml".to_string(),
                    default_custom: "default.custom.yaml".to_string(),
                    os,
                }
            },
            TargetOs::Other => RimeConfig {
                user_dir: path_join(dir_or_dot(&dirs.data_dir).as_str(), "Rime"),
                build_dir: None,
                style_file: "rime.yaml".to_string(),
                style_custom: "rime.custom.yaml".to_string(),
                default_yaml: "default.yaml".to_string(),
                default_custom: "default.custom.yaml".to_string(),
                os,
            },
        }
    }

    /// The compiled style file: under `build/` on Windows when there is one.
    pub fn style_path(&self) -> (p: String)
        ensures
            p@ == joined_path(compiled_dir_of(*self), self.style_file@),
    {
        match (&self.build_dir, self.os) {
            (Some(b), TargetOs::Windows) => path_join(b.as_str(), self.style_file.as_str()),
            _ => path_join(self.user_dir.as_str(), self.style_file.as_str()),
        }
    }

    pub fn style_custom_path(&self) -> (p: String)
        ensures
            p@ == joined_path(self.user_dir@, self.style_custom@),
    {
        path_join(self.user_dir.as_str(), self.style_custom.as_str())
    }

    /// The compiled `default.yaml`: under `build/` on Windows when there is one.
    pub fn default_path(&self) -> (p: String)
        ensures
            p@ == joined_path(compiled_dir_of(*self), self.default_yaml@),
    {
        match (&self.build_dir, self.os) {
            (Some(b), TargetOs::Windows) => path_join(b.as_str(), self.default_yaml.as_str()),
            _ => path_join(self.user_dir.as_str(), self.default_yaml.as_str()),
        }
    }

    pub fn default_custom_path(&self) -> (p: String)
        ensures
            p@ == joined_path(self.user_dir@, self.default_custom@),
    {
        path_join(self.user_dir.as_str(), self.default_custom.as_str())
    }

    pub fn user_yaml_path(&self) -> (p: String)
        ensures
            p@ == joined_path(self.user_dir@, "user.yaml"@),
    {
        path_join(self.user_dir.as_str(), "user.yaml")
    }

    /// `<schema_id>.custom.yaml` in the user directory, or `None` when the id
    /// could leave that directory (it holds `/`, `\` or `..`).
    pub fn schema_custom_path(&self, schema_id: &str) -> (p: Option<String>)
        ensures
            (contains_char(schema_id@, '/') || contains_char(schema_id@, '\\') || contains_dot_dot(
                schema_id@,
            )) ==> p is None,
            !(contains_char(schema_id@, '/') || contains_char(schema_id@, '\\') || contains_dot_dot(
                schema_id@,
            )) ==> (p matches Some(q) && q@ == joined_path(self.user_dir@, schema_id@ + ".custom.yaml"@)),
    {
        if has_char(schema_id, '/') || has_char(schema_id, '\\') || has_dot_dot(schema_id) {
            return None;
        }
        let mut name = chars_of(schema_id);
        name.append(&mut chars_of(".custom.yaml"));
        let file = string_of(name.as_slice());
        Some(path_join(self.user_dir.as_str(), file.as_str()))
    }

    /// The directory of compiled configuration: `build/` when there is one.
    pub fn rime_data_dir(&self) -> (d: &String)
        ensures
            d@ == match self.build_dir {
                Some(b) => b@,
                None => self.user_dir@,
            },
    {
        match &self.build_dir {
            Some(b) => b,
            None => &self.user_dir,
        }
    }
}

// ---------------------------------------------------------------------------
// Documents
// ---------------------------------------------------------------------------

/// The node at `k` of a document that is a mapping (seen through tags).
pub open spec fn doc_get(v: YamlView, k: Seq<char>) -> Option<YamlView> {
    match mapping_of(v) {
        Some(m) => map_get(m, k),
        None => None,
    }
}

/// The configuration in force: the base document with the custom file's
/// `patch` merged in. A custom file that could not be read, or has no patch
/// mapping, leaves the base as it is; so does a base that is no mapping.
pub open spec fn effective_document(base: YamlView, custom: Option<YamlView>) -> YamlView {
    match custom {
        Some(c) => match doc_get(c, "patch"@) {
            Some(p) => match (mapping_of(p), mapping_of(base)) {
                (Some(pm), Some(bm)) => YamlView::Mapping(merged(bm, pm)),
                _ => base,
            },
            None => base,
        },
        None => base,
    }
}

/// The `patch` mapping of a custom file, or an empty one.
pub open spec fn patch_of(doc: YamlView) -> Entries {
    match doc_get(doc, "patch"@) {
        Some(p) => match mapping_of(p) {
            Some(m) => m,
            None => Seq::empty(),
        },
        None => Seq::empty(),
    }
}

/// The key string for a literal.
pub fn key(s: &str) -> (k: String)
    ensures
        k@ == s@,
{
    s.to_string()
}

pub fn get_in_document<'a>(doc: &'a YamlValue, k: &str) -> (r: Option<&'a YamlValue>)
    ensures
        match r {
            Some(v) => doc_get(doc@, k@) == Some(v@),
            None => doc_get(doc@, k@) == None::<YamlView>,
        },
{
    match doc.as_mapping() {
        Some(m) => m.get(&key(k)),
        None => None,
    }
}

/// The document in force, from the base document and the custom one (`None`
/// when the custom file could not be read).
pub fn effective_config(base: &YamlValue, custom: Option<&YamlValue>) -> (r: YamlValue)
    ensures
        r@ == effective_document(base@, match custom {
            Some(c) => Some(c@),
            None => None,
        }),
{
    match custom {
        Some(c) => match get_in_document(c, "patch") {
            Some(p) => match (p.as_mapping(), base.as_mapping()) {
                (Some(pm), Some(bm)) => YamlValue::Mapping(merge(bm, pm)),
                _ => base.deep_copy(),
            },
            None => base.deep_copy(),
        },
        None => base.deep_copy(),
    }
}

/// The `patch` mapping of an existing custom document.
pub fn patch_of_document(existing: &YamlValue) -> (m: YamlMap)
    ensures
        m@ == patch_of(existing@),
{
    match get_in_document(existing, "patch") {
        Some(p) => match p.as_mapping() {
            Some(m) => m.deep_copy(),
            None => YamlMap::new(),
        },
        None => YamlMap::new(),
    }
}

/// The custom document that holds `patch`: `{patch: ...}`.
pub fn patch_document(patch: YamlMap) -> (doc: YamlMap)
    ensures
        doc@ == seq![("patch"@, YamlView::Mapping(patch@))],
{
    let mut root = YamlMap::new();
    let ghost p = patch@;
    root.insert(key("patch"), YamlValue::Mapping(patch));
    proof {
        crate::rime::yaml::lemma_find_key(Seq::<(Seq<char>, YamlView)>::empty(), "patch"@);
    }
    assert(root@ =~= seq![("patch"@, YamlView::Mapping(p))]);
    root
}

// ---------------------------------------------------------------------------
// Typed reads
// ---------------------------------------------------------------------------

pub open spec fn string_at(dict: Entries, k: Seq<char>) -> Option<Seq<char>> {
    match map_get(dict, k) {
        Some(v) => str_of(v),
        None => None,
    }
}

pub open spec fn bool_at(dict: Entries, k: Seq<char>) -> Option<bool> {
    match map_get(dict, k) {
        Some(v) => bool_of(v),
        None => None,
    }
}

pub open spec fn int_at(dict: Entries, k: Seq<char>) -> Option<i64> {
    match map_get(dict, k) {
        Some(v) => int_of(v),
        None => None,
    }
}

pub open spec fn mapping_at(dict: Entries, k: Seq<char>) -> Entries {
    match map_get(dict, k) {
        Some(v) => match mapping_of(v) {
            Some(m) => m,
            None => Seq::empty(),
        },
        None => Seq::empty(),
    }
}

pub open spec fn sequence_at(dict: Entries, k: Seq<char>) -> Seq<YamlView> {
    match map_get(dict, k) {
        Some(v) => match sequence_of(v) {
            Some(s) => s,
            None => Seq::empty(),
        },
        None => Seq::empty(),
    }
}

/// A document read as a mapping (empty when it is none).
pub fn value_as_mapping(value: &YamlValue) -> (m: YamlMap)
    ensures
        m@ == match mapping_of(value@) {
            Some(m) => m,
            None => Seq::empty(),
        },
{
    match value.as_mapping() {
        Some(m) => m.deep_copy(),
        None => YamlMap::new(),
    }
}

pub fn get_string(dict: &YamlMap, k: &str) -> (r: Option<String>)
    ensures
        match r {
            Some(s) => string_at(dict@, k@) == Some(s@),
            None => string_at(dict@, k@) == None::<Seq<char>>,
        },
{
    match dict.get(&key(k)) {
        Some(v) => match v.as_str() {
            Some(s) => Some(s.clone()),
            None => None,
        },
        None => None,
    }
}

pub fn get_bool(dict: &YamlMap, k: &str) -> (r: Option<bool>)
    ensures
        r == bool_at(dict@, k@),
{
    match dict.get(&key(k)) {
        Some(v) => v.as_bool(),
        None => None,
    }
}

/// An integer, or a float truncated toward zero.
pub fn get_i64(dict: &YamlMap, k: &str) -> (r: Option<i64>)
    ensures
        r == int_at(dict@, k@),
{
    match dict.get(&key(k)) {
        Some(v) => value_int(v),
        None => None,
    }
}

fn value_int(v: &YamlValue) -> (r: Option<i64>)
    ensures
        r == int_of(v@),
    decreases v,
{
    match v {
        YamlValue::Number(crate::rime::yaml::YamlNumber::PosInt(n)) => if *n <= i64::MAX as u64 {
            Some(*n as i64)
        } else {
            Some(i64::MAX)
        },
        YamlValue::Number(crate::rime::yaml::YamlNumber::NegInt(n)) => Some(*n),
        YamlValue::Number(crate::rime::yaml::YamlNumber::Float(bits)) => Some(
            float_bits_truncated(*bits),
        ),
        YamlValue::Tagged(_, b) => value_int(b),
        _ => None,
    }
}

pub fn get_mapping(dict: &YamlMap, k: &str) -> (m: YamlMap)
    ensures
        m@ == mapping_at(dict@, k@),
{
    match dict.get(&key(k)) {
        Some(v) => match v.as_mapping() {
            Some(m) => m.deep_copy(),
            None => YamlMap::new(),
        },
        None => YamlMap::new(),
    }
}

pub fn get_sequence(dict: &YamlMap, k: &str) -> (s: Vec<YamlValue>)
    ensures
        view_items(s@) == sequence_at(dict@, k@),
{
    match dict.get(&key(k)) {
        Some(v) => match v.as_sequence() {
            Some(items) => copy_items(items),
            None => Vec::new(),
        },
        None => {
            let r: Vec<YamlValue> = Vec::new();
            assert(view_items(r@) =~= Seq::<YamlView>::empty());
            r
        },
    }
}

} // verus!
