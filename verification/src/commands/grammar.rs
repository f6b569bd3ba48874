use vstd::prelude::*;

use crate::commands::settings::{or_bool, or_int};
use crate::rime::config::{bool_at, doc_get, get_bool, get_i64, get_in_document, get_mapping, get_string, int_at, key, mapping_at, string_at};
use crate::rime::edit::{bool_node, int_node, rewrap, string_node};
use crate::rime::grammar::{GrammarModel, SchemaGrammarConfig, has_grammar_defaults, size_text};
use crate::rime::order::{KeyModel, SortKey, keys_view, sort_by_keys, sorted_by_keys};
use crate::rime::patch::{expand_node, expand_prefix, expanded_map, expanded_patch, is_directive, nested_or_empty, path_segments, set_at_path};
use crate::rime::text::{extension_of, file_extension, file_stem, has_prefix, starts_with, stem_of};
use crate::rime::yaml::{Entries, YamlMap, YamlValue, YamlView, map_get, map_insert, keys_unique, map_remove, mapping_of, number_of_i64};

verus! {

/// A file found in a directory: its name, its path and its size in bytes.
pub struct FileEntry {
    pub name: String,
    pub path: String,
    pub size: i64,
}

/// The grammar models and the grammar settings of each schema asked for.
pub struct GrammarData {
    pub models: Vec<GrammarModel>,
    pub mount_configs: Vec<(String, SchemaGrammarConfig)>,
}

/// What a model found as a file is shown as, when it is one (`*.gram`).
pub struct ModelModel {
    pub filename: Seq<char>,
    pub file_path: Seq<char>,
    pub file_size: i64,
    pub display_name: Seq<char>,
    pub formatted_size: Seq<char>,
}

impl View for GrammarModel {
    type V = ModelModel;

    open spec fn view(&self) -> ModelModel {
        ModelModel {
            filename: self.filename@,
            file_path: self.file_path@,
            file_size: self.file_size,
            display_name: self.display_name@,
            formatted_size: self.formatted_size@,
        }
    }
}

pub open spec fn models_view(v: Seq<GrammarModel>) -> Seq<ModelModel> {
    v.map_values(|m: GrammarModel| m@)
}

/// The models among the files, in order: each `*.gram` file, named by its stem.
pub open spec fn models_in(files: Seq<FileEntry>) -> Seq<ModelModel>
    decreases files.len(),
{
    if files.len() == 0 {
        Seq::empty()
    } else {
        let f = files.last();
        if extension_of(f.name@) == Some("gram"@) {
            models_in(files.drop_last()).push(
                ModelModel {
                    filename: stem_of(f.name@),
                    file_path: f.path@,
                    file_size: f.size,
                    display_name: stem_of(f.name@),
                    formatted_size: size_text(f.size),
                },
            )
        } else {
            models_in(files.drop_last())
        }
    }
}

/// The models of a directory listing, sorted stably by file name.
pub open spec fn grammar_models_of(files: Seq<FileEntry>) -> Seq<ModelModel> {
    sorted_by_keys(
        models_in(files),
        models_in(files).map_values(|m: ModelModel| KeyModel::Text(m.filename)),
        false,
    )
}

fn is_gram(name: &str) -> (r: bool)
    ensures
        r == (extension_of(name@) == Some("gram"@)),
{
    match file_extension(name) {
        Some(e) => e == "gram".to_string(),
        None => false,
    }
}

/// The grammar models among the files of the user directory, by file name.
pub fn grammar_models(files: &Vec<FileEntry>) -> (r: Vec<GrammarModel>)
    ensures
        models_view(r@) == grammar_models_of(files@),
{
    let mut models: Vec<GrammarModel> = Vec::new();
    let mut keys: Vec<SortKey> = Vec::new();
    let mut i: usize = 0;
    while i < files.len()
        invariant
            i <= files@.len(),
            models@.len() == keys@.len(),
            models_view(models@) == models_in(files@.take(i as int)),
            keys_view(keys@) == models_in(files@.take(i as int)).map_values(
                |m: ModelModel| KeyModel::Text(m.filename),
            ),
        decreases files@.len() - i,
    {
        let ghost before = models@;
        let ghost before_keys = keys@;
        assert(files@.take(i + 1).drop_last() =~= files@.take(i as int));
        assert(files@.take(i + 1).last() == files@[i as int]);
        let f = &files[i];
        if is_gram(f.name.as_str()) {
            let stem = file_stem(f.name.as_str());
            keys.push(SortKey::Text(stem.clone()));
            models.push(GrammarModel::new(stem, f.path.clone(), f.size));
            assert(models_view(models@) =~= models_view(before).push(models@.last()@));
            assert(keys_view(keys@) =~= keys_view(before_keys).push(KeyModel::Text(models@.last().filename@)));
        }
        i = i + 1;
    }
    assert(files@.take(i as int) =~= files@);
    let ghost unsorted = models@;
    let ghost kv = keys_view(keys@);
    let r = sort_by_keys(models, keys, false);
    proof {
        crate::rime::order::lemma_sorted_map(unsorted, kv, false, |x: GrammarModel| x@);
    }
    r
}

// ---------------------------------------------------------------------------
// The grammar settings of a schema
// ---------------------------------------------------------------------------

/// The grammar settings a schema's custom document holds (`None` when the
/// file could not be read): read from its expanded patch, each setting that
/// is missing keeping its default.
pub open spec fn mount_config_matches(c: SchemaGrammarConfig, schema_id: Seq<char>, custom: Option<YamlView>) -> bool {
    &&& c.schema_id@ == schema_id
    &&& match custom {
        Some(doc) => match doc_get(doc, "patch"@) {
            Some(p) => match mapping_of(p) {
                Some(pm) => {
                    let g = mapping_at(expanded_map(pm), "grammar"@);
                    let t = mapping_at(expanded_map(pm), "translator"@);
                    &&& match c.mounted_model {
                        Some(m) => string_at(g, "language"@) == Some(m@),
                        None => string_at(g, "language"@) is None,
                    }
                    &&& c.collocation_max_length == or_int(int_at(g, "collocation_max_length"@), 5)
                    &&& c.collocation_min_length == or_int(int_at(g, "collocation_min_length"@), 2)
                    &&& c.collocation_penalty == or_int(int_at(g, "collocation_penalty"@), -16i64)
                    &&& c.non_collocation_penalty == or_int(int_at(g, "non_collocation_penalty"@), -8i64)
                    &&& c.weak_collocation_penalty == or_int(int_at(g, "weak_collocation_penalty"@), -100i64)
                    &&& c.rear_penalty == or_int(int_at(g, "rear_penalty"@), -20i64)
                    &&& c.contextual_suggestions == or_bool(bool_at(t, "contextual_suggestions"@), true)
                    &&& c.max_homophones == or_int(int_at(t, "max_homophones"@), 7)
                    &&& c.max_homographs == or_int(int_at(t, "max_homographs"@), 7)
                },
                None => has_grammar_defaults(c),
            },
            None => has_grammar_defaults(c),
        },
        None => has_grammar_defaults(c),
    }
}

/// The grammar settings of a schema, from its custom document (`None` when
/// that file could not be read).
pub fn load_mount_config(schema_id: &str, custom: Option<&YamlValue>) -> (c: SchemaGrammarConfig)
    ensures
        mount_config_matches(c, schema_id@, match custom {
            Some(d) => Some(d@),
            None => None,
        }),
{
    let mut config = SchemaGrammarConfig::default_for(schema_id);
    match custom {
        Some(doc) => match get_in_document(doc, "patch") {
            Some(p) => match p.as_mapping() {
                Some(pm) => {
                    let expanded = expanded_patch(pm);
                    let g = get_mapping(&expanded, "grammar");
                    let t = get_mapping(&expanded, "translator");
                    config.mounted_model = get_string(&g, "language");
                    config.collocation_max_length = get_i64(&g, "collocation_max_length").unwrap_or(5);
                    config.collocation_min_length = get_i64(&g, "collocation_min_length").unwrap_or(2);
                    config.collocation_penalty = get_i64(&g, "collocation_penalty").unwrap_or(-16);
                    config.non_collocation_penalty = get_i64(&g, "non_collocation_penalty").unwrap_or(-8);
                    config.weak_collocation_penalty = get_i64(&g, "weak_collocation_penalty").unwrap_or(-100);
                    config.rear_penalty = get_i64(&g, "rear_penalty").unwrap_or(-20);
                    config.contextual_suggestions = get_bool(&t, "contextual_suggestions").unwrap_or(true);
                    config.max_homophones = get_i64(&t, "max_homophones").unwrap_or(7);
                    config.max_homographs = get_i64(&t, "max_homographs").unwrap_or(7);
                },
                None => {},
            },
            None => {},
        },
        None => {},
    }
    config
}

/// The patch with a model mounted: the grammar and translator settings are
/// written under flat `grammar/...` and `translator/...` keys.
pub open spec fn mounted_patch(patch: Entries, model: Seq<char>, c: SchemaGrammarConfig) -> Entries {
    let p1 = map_insert(patch, "grammar/language"@, YamlView::Str(model));
    let p2 = map_insert(p1, "grammar/collocation_max_length"@, YamlView::Number(number_of_i64(c.collocation_max_length)));
    let p3 = map_insert(p2, "grammar/collocation_min_length"@, YamlView::Number(number_of_i64(c.collocation_min_length)));
    let p4 = map_insert(p3, "grammar/collocation_penalty"@, YamlView::Number(number_of_i64(c.collocation_penalty)));
    let p5 = map_insert(p4, "grammar/non_collocation_penalty"@, YamlView::Number(number_of_i64(c.non_collocation_penalty)));
    let p6 = map_insert(p5, "grammar/weak_collocation_penalty"@, YamlView::Number(number_of_i64(c.weak_collocation_penalty)));
    let p7 = map_insert(p6, "grammar/rear_penalty"@, YamlView::Number(number_of_i64(c.rear_penalty)));
    let p8 = map_insert(p7, "translator/contextual_suggestions"@, YamlView::Bool(c.contextual_suggestions));
    let p9 = map_insert(p8, "translator/max_homophones"@, YamlView::Number(number_of_i64(c.max_homophones)));
    map_insert(p9, "translator/max_homographs"@, YamlView::Number(number_of_i64(c.max_homographs)))
}

/// Mounts a grammar model in a schema's custom patch.
pub fn mount_grammar(patch: &mut YamlMap, model_filename: String, config: &SchemaGrammarConfig)
    ensures
        final(patch)@ == mounted_patch(old(patch)@, model_filename@, *config),
{
    patch.insert(key("grammar/language"), string_node(model_filename));
    patch.insert(key("grammar/collocation_max_length"), int_node(config.collocation_max_length));
    patch.insert(key("grammar/collocation_min_length"), int_node(config.collocation_min_length));
    patch.insert(key("grammar/collocation_penalty"), int_node(config.collocation_penalty));
    patch.insert(key("grammar/non_collocation_penalty"), int_node(config.non_collocation_penalty));
    patch.insert(key("grammar/weak_collocation_penalty"), int_node(config.weak_collocation_penalty));
    patch.insert(key("grammar/rear_penalty"), int_node(config.rear_penalty));
    patch.insert(key("translator/contextual_suggestions"), bool_node(config.contextual_suggestions));
    patch.insert(key("translator/max_homophones"), int_node(config.max_homophones));
    patch.insert(key("translator/max_homographs"), int_node(config.max_homographs));
}

/// A key that belongs to the grammar: `grammar` itself or under `grammar/`.
pub open spec fn is_grammar_key(k: Seq<char>) -> bool {
    k == "grammar"@ || has_prefix(k, "grammar/"@)
}

/// A translator key the grammar sets.
pub open spec fn is_suggestion_key(k: Seq<char>) -> bool {
    k == "contextual_suggestions"@ || k == "max_homophones"@ || k == "max_homographs"@
}

/// The keys of `m` that `pick` selects, in order.
pub open spec fn keys_where(m: Entries, pick: spec_fn(Seq<char>) -> bool) -> Seq<Seq<char>>
    decreases m.len(),
{
    if m.len() == 0 {
        Seq::empty()
    } else if pick(m.last().0) {
        keys_where(m.drop_last(), pick).push(m.last().0)
    } else {
        keys_where(m.drop_last(), pick)
    }
}

/// `m` with the keys removed one after another.
pub open spec fn remove_keys(m: Entries, ks: Seq<Seq<char>>) -> Entries
    decreases ks.len(),
{
    if ks.len() == 0 {
        m
    } else {
        map_remove(remove_keys(m, ks.drop_last()), ks.last())
    }
}

/// The patch with a model unmounted: every grammar key removed, and the
/// grammar's translator settings removed from `translator` (which goes when
/// nothing is left in it).
pub open spec fn unmounted_patch(patch: Entries) -> Entries {
    let p1 = remove_keys(patch, keys_where(patch, |k: Seq<char>| is_grammar_key(k)));
    match map_get(p1, "translator"@) {
        Some(v) => match mapping_of(v) {
            Some(t) => {
                let t1 = remove_keys(t, keys_where(t, |k: Seq<char>| is_suggestion_key(k)));
                if t1.len() == 0 {
                    map_remove(p1, "translator"@)
                } else {
                    map_insert(p1, "translator"@, rewrap(v, t1))
                }
            },
            None => p1,
        },
        None => p1,
    }
}

fn grammar_key(k: &String) -> (r: bool)
    ensures
        r == is_grammar_key(k@),
{
    *k == "grammar".to_string() || starts_with(k.as_str(), "grammar/")
}

fn suggestion_key(k: &String) -> (r: bool)
    ensures
        r == is_suggestion_key(k@),
{
    *k == "contextual_suggestions".to_string() || *k == "max_homophones".to_string() || *k
        == "max_homographs".to_string()
}

fn grammar_keys(m: &YamlMap) -> (r: Vec<String>)
    ensures
        crate::rime::patch::strings_view(r@) == keys_where(m@, |k: Seq<char>| is_grammar_key(k)),
{
    let mut r: Vec<String> = Vec::new();
    let n = m.len();
    let mut i: usize = 0;
    while i < n
        invariant
            n == m@.len(),
            i <= n,
            crate::rime::patch::strings_view(r@) == keys_where(m@.take(i as int), |k: Seq<char>| is_grammar_key(k)),
        decreases n - i,
    {
        let ghost before = r@;
        assert(m@.take(i + 1).drop_last() =~= m@.take(i as int));
        let k = m.key_at(i);
        if grammar_key(k) {
            r.push(k.clone());
            assert(crate::rime::patch::strings_view(r@) =~= crate::rime::patch::strings_view(before).push(k@));
        }
        i = i + 1;
    }
    assert(m@.take(n as int) =~= m@);
    r
}

fn suggestion_keys(m: &YamlMap) -> (r: Vec<String>)
    ensures
        crate::rime::patch::strings_view(r@) == keys_where(m@, |k: Seq<char>| is_suggestion_key(k)),
{
    let mut r: Vec<String> = Vec::new();
    let n = m.len();
    let mut i: usize = 0;
    while i < n
        invariant
            n == m@.len(),
            i <= n,
            crate::rime::patch::strings_view(r@) == keys_where(m@.take(i as int), |k: Seq<char>| is_suggestion_key(k)),
        decreases n - i,
    {
        let ghost before = r@;
        assert(m@.take(i + 1).drop_last() =~= m@.take(i as int));
        let k = m.key_at(i);
        if suggestion_key(k) {
            r.push(k.clone());
            assert(crate::rime::patch::strings_view(r@) =~= crate::rime::patch::strings_view(before).push(k@));
        }
        i = i + 1;
    }
    assert(m@.take(n as int) =~= m@);
    r
}

fn remove_all(m: &mut YamlMap, ks: &Vec<String>)
    ensures
        final(m)@ == remove_keys(old(m)@, crate::rime::patch::strings_view(ks@)),
{
    let mut i: usize = 0;
    while i < ks.len()
        invariant
            i <= ks@.len(),
            m@ == remove_keys(old(m)@, crate::rime::patch::strings_view(ks@).take(i as int)),
        decreases ks@.len() - i,
    {
        assert(crate::rime::patch::strings_view(ks@).take(i + 1).drop_last() =~= crate::rime::patch::strings_view(ks@).take(i as int));
        m.remove(&ks[i]);
        i = i + 1;
    }
    assert(crate::rime::patch::strings_view(ks@).take(i as int) =~= crate::rime::patch::strings_view(ks@));
}

fn rewrap_mapping(v: YamlValue, m: YamlMap) -> (r: YamlValue)
    ensures
        r@ == rewrap(v@, m@),
    decreases v,
{
    match v {
        YamlValue::Tagged(t, b) => {
            let inner = rewrap_mapping(*b, m);
            YamlValue::Tagged(t, Box::new(inner))
        },
        _ => YamlValue::Mapping(m),
    }
}

/// Unmounts the grammar model from a schema's custom patch.
pub fn unmount_grammar(patch: &mut YamlMap)
    ensures
        final(patch)@ == unmounted_patch(old(patch)@),
{
    let ks = grammar_keys(patch);
    remove_all(patch, &ks);
    let tk = key("translator");
    let existing = match patch.get(&tk) {
        Some(v) => Some(v.deep_copy()),
        None => None,
    };
    match existing {
        Some(v) => {
            let inner = match v.as_mapping() {
                Some(t) => Some(t.deep_copy()),
                None => None,
            };
            match inner {
                Some(t) => {
                    let mut t = t;
                    let sk = suggestion_keys(&t);
                    remove_all(&mut t, &sk);
                    if t.is_empty() {
                        patch.remove(&tk);
                    } else {
                        let nv = rewrap_mapping(v, t);
                        patch.insert(tk, nv);
                    }
                },
                None => {},
            }
        },
        None => {},
    }
}

// ---------------------------------------------------------------------------
// Unmounting clears the grammar
// ---------------------------------------------------------------------------

proof fn lemma_keys_where(m: Entries, pick: spec_fn(Seq<char>) -> bool)
    ensures
        forall|j: int| 0 <= j < m.len() && pick(m[j].0) ==> keys_where(m, pick).contains(#[trigger] m[j].0),
        forall|x: Seq<char>| keys_where(m, pick).contains(x) ==> pick(x),
    decreases m.len(),
{
    if m.len() > 0 {
        let init = m.drop_last();
        lemma_keys_where(init, pick);
        assert forall|j: int| 0 <= j < m.len() && pick(m[j].0) implies keys_where(m, pick).contains(#[trigger] m[j].0) by {
            if j < m.len() - 1 {
                assert(init[j] == m[j]);
                assert(keys_where(init, pick).contains(init[j].0));
                if pick(m.last().0) {
                    let w = keys_where(init, pick);
                    let i = choose|i: int| 0 <= i < w.len() && w[i] == m[j].0;
                    assert(w.push(m.last().0)[i] == m[j].0);
                }
            } else {
                assert(keys_where(m, pick) == keys_where(init, pick).push(m.last().0));
                assert(keys_where(m, pick)[keys_where(init, pick).len() as int] == m[j].0);
            }
        }
        assert forall|x: Seq<char>| keys_where(m, pick).contains(x) implies pick(x) by {
            if pick(m.last().0) {
                let w = keys_where(init, pick);
                let i = choose|i: int| 0 <= i < w.len() + 1 && w.push(m.last().0)[i] == x;
                if i < w.len() {
                    assert(w.contains(x));
                }
            }
        }
    }
}

proof fn lemma_remove_keys(m: Entries, ks: Seq<Seq<char>>)
    requires
        keys_unique(m),
    ensures
        keys_unique(remove_keys(m, ks)),
        forall|k: Seq<char>| ks.contains(k) ==> #[trigger] map_get(remove_keys(m, ks), k) is None,
        forall|k: Seq<char>| !ks.contains(k) ==> #[trigger] map_get(remove_keys(m, ks), k) == map_get(m, k),
    decreases ks.len(),
{
    if ks.len() > 0 {
        let init = ks.drop_last();
        lemma_remove_keys(m, init);
        let r0 = remove_keys(m, init);
        crate::rime::yaml::lemma_remove_unique(r0, ks.last());
        assert(remove_keys(m, ks) == map_remove(r0, ks.last()));
        assert forall|k: Seq<char>| ks.contains(k) implies #[trigger] map_get(remove_keys(m, ks), k) is None by {
            if k != ks.last() {
                let i = choose|i: int| 0 <= i < ks.len() && ks[i] == k;
                assert(init[i] == k);
                assert(init.contains(k));
                assert(map_get(r0, k) is None);
                assert(map_get(map_remove(r0, ks.last()), k) == map_get(r0, k));
            }
        }
        assert forall|k: Seq<char>| !ks.contains(k) implies #[trigger] map_get(remove_keys(m, ks), k) == map_get(m, k) by {
            assert(ks[ks.len() - 1] == ks.last());
            if init.contains(k) {
                let i = choose|i: int| 0 <= i < init.len() && init[i] == k;
                assert(ks[i] == k);
            }
            assert(!init.contains(k));
            assert(k != ks.last());
            assert(map_get(r0, k) == map_get(m, k));
            assert(map_get(map_remove(r0, ks.last()), k) == map_get(r0, k));
        }
    }
}

/// Unmounting a model leaves no grammar key in the patch and none of the
/// grammar's settings in its `translator` mapping, and leaves every other
/// key but `translator` as it was.
pub proof fn unmount_clears_grammar(patch: Entries, k: Seq<char>)
    requires
        keys_unique(patch),
        keys_unique(mapping_at(patch, "translator"@)),
    ensures
        is_grammar_key(k) ==> map_get(unmounted_patch(patch), k) is None,
        !is_grammar_key(k) && k != "translator"@ ==> map_get(unmounted_patch(patch), k) == map_get(patch, k),
        is_suggestion_key(k) ==> map_get(mapping_at(unmounted_patch(patch), "translator"@), k) is None,
{
    reveal_strlit("translator");
    reveal_strlit("grammar");
    reveal_strlit("grammar/");
    let tk = "translator"@;
    assert(!is_grammar_key(tk)) by {
        assert(tk.len() != "grammar"@.len());
        assert(tk.take(8) != "grammar/"@) by {
            assert(tk.take(8)[0] != "grammar/"@[0]);
        }
    }
    let gks = keys_where(patch, |x: Seq<char>| is_grammar_key(x));
    lemma_keys_where(patch, |x: Seq<char>| is_grammar_key(x));
    lemma_remove_keys(patch, gks);
    let p1 = remove_keys(patch, gks);
    assert(!gks.contains(tk));
    if is_grammar_key(k) && !gks.contains(k) {
        crate::rime::yaml::lemma_find_key(patch, k);
        if crate::rime::yaml::find_key(patch, k) >= 0 {
            let j = crate::rime::yaml::find_key(patch, k);
            assert(gks.contains(patch[j].0));
        }
    }
    assert(is_grammar_key(k) ==> map_get(p1, k) is None);
    assert(map_get(p1, tk) == map_get(patch, tk));
    match map_get(p1, tk) {
        Some(v) => match mapping_of(v) {
            Some(t) => {
                assert(mapping_at(patch, tk) == t);
                let sks = keys_where(t, |x: Seq<char>| is_suggestion_key(x));
                lemma_keys_where(t, |x: Seq<char>| is_suggestion_key(x));
                lemma_remove_keys(t, sks);
                let t1 = remove_keys(t, sks);
                if is_suggestion_key(k) && !sks.contains(k) {
                    crate::rime::yaml::lemma_find_key(t, k);
                    if crate::rime::yaml::find_key(t, k) >= 0 {
                        let j = crate::rime::yaml::find_key(t, k);
                        assert(sks.contains(t[j].0));
                    }
                }
                if t1.len() == 0 {
                    crate::rime::yaml::lemma_remove_unique(p1, tk);
                } else {
                    crate::rime::yaml::lemma_insert_get(p1, tk, rewrap(v, t1));
                    crate::rime::edit::lemma_rewrap_mapping(v, t1);
                    if k != tk {
                        crate::rime::yaml::lemma_insert_other(p1, tk, rewrap(v, t1), k);
                    }
                }
            },
            None => {},
        },
        None => {},
    }
}

// ---------------------------------------------------------------------------
// A mounted model reads back
// ---------------------------------------------------------------------------

/// A key whose first component is neither `grammar` nor `translator`.
pub open spec fn first_segment_free(k: Seq<char>) -> bool {
    path_segments(k).len() == 0 || (path_segments(k)[0] != "grammar"@ && path_segments(k)[0] != "translator"@)
}

/// No entry of the patch is stored under `grammar` or `translator`.
pub open spec fn outside_grammar(pm: Entries) -> bool {
    forall|j: int| 0 <= j < pm.len() ==> #[trigger] first_segment_free(pm[j].0)
}

proof fn lemma_expand_avoids(m: Entries, n: nat)
    requires
        n <= m.len(),
        forall|j: int| 0 <= j < n ==> #[trigger] first_segment_free(m[j].0),
    ensures
        keys_unique(expand_prefix(m, n)),
        map_get(expand_prefix(m, n), "grammar"@) is None,
        map_get(expand_prefix(m, n), "translator"@) is None,
    decreases n,
{
    if n > 0 {
        lemma_expand_avoids(m, (n - 1) as nat);
        let acc = expand_prefix(m, (n - 1) as nat);
        let e = m[n - 1];
        assert(first_segment_free(e.0));
        if !is_directive(e.0) {
            let segs = path_segments(e.0);
            if segs.len() > 0 {
                crate::rime::patch::set_keeps_other_keys(acc, segs, expand_node(e.1, e.1), "grammar"@);
                crate::rime::patch::set_keeps_other_keys(acc, segs, expand_node(e.1, e.1), "translator"@);
            }
        }
    } else {
        crate::rime::yaml::lemma_find_key(expand_prefix(m, n), "grammar"@);
        crate::rime::yaml::lemma_find_key(expand_prefix(m, n), "translator"@);
    }
}

proof fn lemma_set_pair(m: Entries, a: Seq<char>, b: Seq<char>, v: YamlView)
    ensures
        set_at_path(m, seq![a, b], v) == map_insert(m, a, YamlView::Mapping(map_insert(nested_or_empty(m, a), b, v))),
{
    reveal_with_fuel(set_at_path, 2);
    assert(seq![a, b].drop_first() =~= seq![b]);
}

proof fn lemma_push_absent(m: Entries, k: Seq<char>, v: YamlView)
    requires
        forall|j: int| 0 <= j < m.len() ==> m[j].0 != k,
    ensures
        map_insert(m, k, v) == m.push((k, v)),
{
    crate::rime::yaml::lemma_find_key(m, k);
}

proof fn lemma_int_of_number(x: i64)
    ensures
        crate::rime::yaml::int_of(YamlView::Number(number_of_i64(x))) == Some(x),
{
}

/// The keys a mount writes, with their components.
proof fn lemma_mount_key_segments()
    ensures
        path_segments("grammar/language"@) == seq!["grammar"@, "language"@],
        path_segments("grammar/collocation_max_length"@) == seq!["grammar"@, "collocation_max_length"@],
        path_segments("grammar/collocation_min_length"@) == seq!["grammar"@, "collocation_min_length"@],
        path_segments("grammar/collocation_penalty"@) == seq!["grammar"@, "collocation_penalty"@],
        path_segments("grammar/non_collocation_penalty"@) == seq!["grammar"@, "non_collocation_penalty"@],
        path_segments("grammar/weak_collocation_penalty"@) == seq!["grammar"@, "weak_collocation_penalty"@],
        path_segments("grammar/rear_penalty"@) == seq!["grammar"@, "rear_penalty"@],
        path_segments("translator/contextual_suggestions"@) == seq!["translator"@, "contextual_suggestions"@],
        path_segments("translator/max_homophones"@) == seq!["translator"@, "max_homophones"@],
        path_segments("translator/max_homographs"@) == seq!["translator"@, "max_homographs"@],
{
    reveal_strlit("/");
    reveal_strlit("grammar");
    reveal_strlit("translator");
    reveal_strlit("language");
    reveal_strlit("collocation_max_length");
    reveal_strlit("collocation_min_length");
    reveal_strlit("collocation_penalty");
    reveal_strlit("non_collocation_penalty");
    reveal_strlit("weak_collocation_penalty");
    reveal_strlit("rear_penalty");
    reveal_strlit("contextual_suggestions");
    reveal_strlit("max_homophones");
    reveal_strlit("max_homographs");
    reveal_strlit("grammar/language");
    reveal_strlit("grammar/collocation_max_length");
    reveal_strlit("grammar/collocation_min_length");
    reveal_strlit("grammar/collocation_penalty");
    reveal_strlit("grammar/non_collocation_penalty");
    reveal_strlit("grammar/weak_collocation_penalty");
    reveal_strlit("grammar/rear_penalty");
    reveal_strlit("translator/contextual_suggestions");
    reveal_strlit("translator/max_homophones");
    reveal_strlit("translator/max_homographs");
    let sl = "/"@;
    assert("grammar/language"@ =~= "grammar"@ + sl + "language"@);
    assert("grammar/collocation_max_length"@ =~= "grammar"@ + sl + "collocation_max_length"@);
    assert("grammar/collocation_min_length"@ =~= "grammar"@ + sl + "collocation_min_length"@);
    assert("grammar/collocation_penalty"@ =~= "grammar"@ + sl + "collocation_penalty"@);
    assert("grammar/non_collocation_penalty"@ =~= "grammar"@ + sl + "non_collocation_penalty"@);
    assert("grammar/weak_collocation_penalty"@ =~= "grammar"@ + sl + "weak_collocation_penalty"@);
    assert("grammar/rear_penalty"@ =~= "grammar"@ + sl + "rear_penalty"@);
    assert("translator/contextual_suggestions"@ =~= "translator"@ + sl + "contextual_suggestions"@);
    assert("translator/max_homophones"@ =~= "translator"@ + sl + "max_homophones"@);
    assert("translator/max_homographs"@ =~= "translator"@ + sl + "max_homographs"@);
    crate::rime::patch::lemma_path_segments_pair("grammar"@, "language"@);
    crate::rime::patch::lemma_path_segments_pair("grammar"@, "collocation_max_length"@);
    crate::rime::patch::lemma_path_segments_pair("grammar"@, "collocation_min_length"@);
    crate::rime::patch::lemma_path_segments_pair("grammar"@, "collocation_penalty"@);
    crate::rime::patch::lemma_path_segments_pair("grammar"@, "non_collocation_penalty"@);
    crate::rime::patch::lemma_path_segments_pair("grammar"@, "weak_collocation_penalty"@);
    crate::rime::patch::lemma_path_segments_pair("grammar"@, "rear_penalty"@);
    crate::rime::patch::lemma_path_segments_pair("translator"@, "contextual_suggestions"@);
    crate::rime::patch::lemma_path_segments_pair("translator"@, "max_homophones"@);
    crate::rime::patch::lemma_path_segments_pair("translator"@, "max_homographs"@);
}

/// The entries a mount writes, in order.
pub open spec fn mount_entries(model: Seq<char>, c: SchemaGrammarConfig) -> Entries {
    seq![
        ("grammar/language"@, YamlView::Str(model)),
        ("grammar/collocation_max_length"@, YamlView::Number(number_of_i64(c.collocation_max_length))),
        ("grammar/collocation_min_length"@, YamlView::Number(number_of_i64(c.collocation_min_length))),
        ("grammar/collocation_penalty"@, YamlView::Number(number_of_i64(c.collocation_penalty))),
        ("grammar/non_collocation_penalty"@, YamlView::Number(number_of_i64(c.non_collocation_penalty))),
        ("grammar/weak_collocation_penalty"@, YamlView::Number(number_of_i64(c.weak_collocation_penalty))),
        ("grammar/rear_penalty"@, YamlView::Number(number_of_i64(c.rear_penalty))),
        ("translator/contextual_suggestions"@, YamlView::Bool(c.contextual_suggestions)),
        ("translator/max_homophones"@, YamlView::Number(number_of_i64(c.max_homophones))),
        ("translator/max_homographs"@, YamlView::Number(number_of_i64(c.max_homographs)))
    ]
}

proof fn lemma_mount_keys_distinct(model: Seq<char>, c: SchemaGrammarConfig)
    ensures
        forall|a: int, b: int|
            0 <= a < 10 && 0 <= b < 10 && a != b ==> mount_entries(model, c)[a].0 != mount_entries(model, c)[b].0,
        forall|a: int| 0 <= a < 10 ==> !is_directive(#[trigger] mount_entries(model, c)[a].0),
        forall|a: int|
            0 <= a < 10 ==> path_segments(#[trigger] mount_entries(model, c)[a].0).len() == 2 && (path_segments(
                mount_entries(model, c)[a].0,
            )[0] == "grammar"@ || path_segments(mount_entries(model, c)[a].0)[0] == "translator"@),
{
    reveal_strlit("grammar/language");
    reveal_strlit("grammar/collocation_max_length");
    reveal_strlit("grammar/collocation_min_length");
    reveal_strlit("grammar/collocation_penalty");
    reveal_strlit("grammar/non_collocation_penalty");
    reveal_strlit("grammar/weak_collocation_penalty");
    reveal_strlit("grammar/rear_penalty");
    reveal_strlit("translator/contextual_suggestions");
    reveal_strlit("translator/max_homophones");
    reveal_strlit("translator/max_homographs");
    reveal_strlit("__delete__");
    reveal_strlit("__append__");
    lemma_mount_key_segments();
    let e = mount_entries(model, c);
    assert(e.len() == 10);
    assert(e[0].0.len() == 16);
    assert(e[1].0.len() == 30);
    assert(e[2].0.len() == 30);
    assert(e[3].0.len() == 27);
    assert(e[4].0.len() == 31);
    assert(e[5].0.len() == 32);
    assert(e[6].0.len() == 20);
    assert(e[7].0.len() == 33);
    assert(e[8].0.len() == 25);
    assert(e[9].0.len() == 25);
    assert forall|a: int, b: int| 0 <= a < 10 && 0 <= b < 10 && a != b implies e[a].0 != e[b].0 by {
        if e[a].0 == e[b].0 {
            assert(e[a].0.len() == e[b].0.len());
            assert(e[a].0[19] == e[b].0[19]);
            assert(e[a].0[21] == e[b].0[21]);
        }
    }
    assert forall|a: int| 0 <= a < 10 implies !is_directive(#[trigger] e[a].0) by {
        assert(e[a].0.len() != 10);
    }
}

proof fn lemma_mount_step(pm: Entries, e: Entries, i: int)
    requires
        outside_grammar(pm),
        e.len() == 10,
        0 <= i < 10,
        forall|a: int, b: int| 0 <= a < 10 && 0 <= b < 10 && a != b ==> e[a].0 != e[b].0,
        forall|a: int|
            0 <= a < 10 ==> path_segments(#[trigger] e[a].0).len() == 2 && (path_segments(e[a].0)[0] == "grammar"@
                || path_segments(e[a].0)[0] == "translator"@),
    ensures
        map_insert(pm + e.take(i), e[i].0, e[i].1) == pm + e.take(i + 1),
{
    let q = pm + e.take(i);
    assert forall|j: int| 0 <= j < q.len() implies q[j].0 != e[i].0 by {
        if j < pm.len() {
            assert(q[j] == pm[j]);
            assert(first_segment_free(pm[j].0));
            assert(path_segments(e[i].0).len() == 2);
        } else {
            assert(q[j] == e[j - pm.len()]);
        }
    }
    lemma_push_absent(q, e[i].0, e[i].1);
    assert(q.push((e[i].0, e[i].1)) =~= pm + e.take(i + 1));
}

/// Mounting into a patch that stores nothing under `grammar` or `translator`
/// appends the mount's entries.
proof fn lemma_mounted_shape(pm: Entries, model: Seq<char>, c: SchemaGrammarConfig)
    requires
        outside_grammar(pm),
    ensures
        mounted_patch(pm, model, c) == pm + mount_entries(model, c),
{
    let e = mount_entries(model, c);
    lemma_mount_keys_distinct(model, c);
    assert(pm + e.take(0) =~= pm);
    assert(e.take(10) =~= e);
    lemma_mount_step(pm, e, 0);
    lemma_mount_step(pm, e, 1);
    lemma_mount_step(pm, e, 2);
    lemma_mount_step(pm, e, 3);
    lemma_mount_step(pm, e, 4);
    lemma_mount_step(pm, e, 5);
    lemma_mount_step(pm, e, 6);
    lemma_mount_step(pm, e, 7);
    lemma_mount_step(pm, e, 8);
    lemma_mount_step(pm, e, 9);
}

proof fn lemma_expand_mount_step(m: Entries, n: nat, k: Seq<char>, a: Seq<char>, b: Seq<char>, v: YamlView)
    requires
        n < m.len(),
        m[n as int] == (k, v),
        !is_directive(k),
        path_segments(k) == seq![a, b],
        mapping_of(v) is None,
    ensures
        expand_prefix(m, n + 1) == map_insert(
            expand_prefix(m, n),
            a,
            YamlView::Mapping(map_insert(nested_or_empty(expand_prefix(m, n), a), b, v)),
        ),
{
    crate::rime::patch::lemma_expand_node(v, v);
    lemma_set_pair(expand_prefix(m, n), a, b, v);
}

/// The `grammar` mapping that a mount's entries expand into.
pub open spec fn mounted_grammar_section(model: Seq<char>, c: SchemaGrammarConfig) -> Entries {
    let e = mount_entries(model, c);
    let g = Seq::<(Seq<char>, YamlView)>::empty();
    let g = map_insert(g, "language"@, e[0].1);
    let g = map_insert(g, "collocation_max_length"@, e[1].1);
    let g = map_insert(g, "collocation_min_length"@, e[2].1);
    let g = map_insert(g, "collocation_penalty"@, e[3].1);
    let g = map_insert(g, "non_collocation_penalty"@, e[4].1);
    let g = map_insert(g, "weak_collocation_penalty"@, e[5].1);
    map_insert(g, "rear_penalty"@, e[6].1)
}

/// The `translator` mapping that a mount's entries expand into.
pub open spec fn mounted_translator_section(model: Seq<char>, c: SchemaGrammarConfig) -> Entries {
    let e = mount_entries(model, c);
    let t = Seq::<(Seq<char>, YamlView)>::empty();
    let t = map_insert(t, "contextual_suggestions"@, e[7].1);
    let t = map_insert(t, "max_homophones"@, e[8].1);
    map_insert(t, "max_homographs"@, e[9].1)
}

#[verifier::rlimit(40)]
proof fn lemma_expanded_mount(pm: Entries, model: Seq<char>, c: SchemaGrammarConfig)
    requires
        outside_grammar(pm),
    ensures
        mapping_at(expanded_map(pm + mount_entries(model, c)), "grammar"@) == mounted_grammar_section(model, c),
        mapping_at(expanded_map(pm + mount_entries(model, c)), "translator"@) == mounted_translator_section(model, c),
{
    reveal_strlit("grammar");
    reveal_strlit("translator");
    reveal_strlit("__delete__");
    reveal_strlit("__append__");
    let e = mount_entries(model, c);
    let m = pm + e;
    let n0 = pm.len();
    lemma_mount_keys_distinct(model, c);
    lemma_mount_key_segments();
    assert forall|j: int| 0 <= j < n0 implies #[trigger] first_segment_free(m[j].0) by {
        assert(m[j] == pm[j]);
        assert(first_segment_free(pm[j].0));
    }
    lemma_expand_avoids(m, n0);
    assert forall|i: int| 0 <= i < 10 implies m[n0 + i] == #[trigger] e[i] by {
    }
    lemma_expand_mount_step(m, (n0 + 0) as nat, e[0].0, "grammar"@, "language"@, e[0].1);
    lemma_expand_mount_step(m, (n0 + 1) as nat, e[1].0, "grammar"@, "collocation_max_length"@, e[1].1);
    lemma_expand_mount_step(m, (n0 + 2) as nat, e[2].0, "grammar"@, "collocation_min_length"@, e[2].1);
    lemma_expand_mount_step(m, (n0 + 3) as nat, e[3].0, "grammar"@, "collocation_penalty"@, e[3].1);
    lemma_expand_mount_step(m, (n0 + 4) as nat, e[4].0, "grammar"@, "non_collocation_penalty"@, e[4].1);
    lemma_expand_mount_step(m, (n0 + 5) as nat, e[5].0, "grammar"@, "weak_collocation_penalty"@, e[5].1);
    lemma_expand_mount_step(m, (n0 + 6) as nat, e[6].0, "grammar"@, "rear_penalty"@, e[6].1);
    lemma_expand_mount_step(m, (n0 + 7) as nat, e[7].0, "translator"@, "contextual_suggestions"@, e[7].1);
    lemma_expand_mount_step(m, (n0 + 8) as nat, e[8].0, "translator"@, "max_homophones"@, e[8].1);
    lemma_expand_mount_step(m, (n0 + 9) as nat, e[9].0, "translator"@, "max_homographs"@, e[9].1);
    assert forall|mm: Entries, k: Seq<char>, v: YamlView, k2: Seq<char>|
        k2 != k implies #[trigger] map_get(map_insert(mm, k, v), k2) == map_get(mm, k2) by {
        crate::rime::yaml::lemma_insert_other(mm, k, v, k2);
    }
    assert forall|mm: Entries, k: Seq<char>, v: YamlView| #[trigger] map_get(map_insert(mm, k, v), k) == Some(v) by {
        crate::rime::yaml::lemma_insert_get(mm, k, v);
    }
    assert("grammar"@ != "translator"@) by {
        assert("grammar"@.len() != "translator"@.len());
    }
    assert("__delete__"@[0] != "grammar"@[0] && "__delete__"@[0] != "translator"@[0]);
    assert("__append__"@[0] != "grammar"@[0] && "__append__"@[0] != "translator"@[0]);
    let a10 = expand_prefix(m, m.len());
    assert(m.len() == n0 + 10);
    assert(mapping_at(expanded_map(m), "grammar"@) == mapping_at(a10, "grammar"@));
    assert(mapping_at(expanded_map(m), "translator"@) == mapping_at(a10, "translator"@));
}

/// A mounted model reads back: when the patch stores nothing under
/// `grammar` or `translator` before the mount, the grammar settings loaded
/// from a document whose patch is the mounted patch are the mounted model and
/// the mounted settings.
pub proof fn mounted_grammar_reads_back(
    pm: Entries,
    model: Seq<char>,
    c: SchemaGrammarConfig,
    doc: YamlView,
    schema_id: Seq<char>,
    loaded: SchemaGrammarConfig,
)
    requires
        outside_grammar(pm),
        doc_get(doc, "patch"@) == Some(YamlView::Mapping(mounted_patch(pm, model, c))),
        mount_config_matches(loaded, schema_id, Some(doc)),
    ensures
        loaded.mounted_model matches Some(m) && m@ == model,
        loaded.collocation_max_length == c.collocation_max_length,
        loaded.collocation_min_length == c.collocation_min_length,
        loaded.collocation_penalty == c.collocation_penalty,
        loaded.non_collocation_penalty == c.non_collocation_penalty,
        loaded.weak_collocation_penalty == c.weak_collocation_penalty,
        loaded.rear_penalty == c.rear_penalty,
        loaded.contextual_suggestions == c.contextual_suggestions,
        loaded.max_homophones == c.max_homophones,
        loaded.max_homographs == c.max_homographs,
{
    reveal_strlit("language");
    reveal_strlit("collocation_max_length");
    reveal_strlit("collocation_min_length");
    reveal_strlit("collocation_penalty");
    reveal_strlit("non_collocation_penalty");
    reveal_strlit("weak_collocation_penalty");
    reveal_strlit("rear_penalty");
    reveal_strlit("contextual_suggestions");
    reveal_strlit("max_homophones");
    reveal_strlit("max_homographs");
    lemma_mounted_shape(pm, model, c);
    lemma_expanded_mount(pm, model, c);
    assert forall|mm: Entries, k: Seq<char>, v: YamlView, k2: Seq<char>|
        k2 != k implies #[trigger] map_get(map_insert(mm, k, v), k2) == map_get(mm, k2) by {
        crate::rime::yaml::lemma_insert_other(mm, k, v, k2);
    }
    assert forall|mm: Entries, k: Seq<char>, v: YamlView| #[trigger] map_get(map_insert(mm, k, v), k) == Some(v) by {
        crate::rime::yaml::lemma_insert_get(mm, k, v);
    }
    assert("language"@.len() == 8 && "collocation_max_length"@.len() == 22 && "collocation_min_length"@.len() == 22
        && "collocation_penalty"@.len() == 19 && "non_collocation_penalty"@.len() == 23
        && "weak_collocation_penalty"@.len() == 24 && "rear_penalty"@.len() == 12);
    assert("collocation_max_length"@[13] != "collocation_min_length"@[13]);
    assert("contextual_suggestions"@.len() == 22 && "max_homophones"@.len() == 14 && "max_homographs"@.len() == 14);
    assert("max_homophones"@[8] != "max_homographs"@[8]);
    lemma_int_of_number(c.collocation_max_length);
    lemma_int_of_number(c.collocation_min_length);
    lemma_int_of_number(c.collocation_penalty);
    lemma_int_of_number(c.non_collocation_penalty);
    lemma_int_of_number(c.weak_collocation_penalty);
    lemma_int_of_number(c.rear_penalty);
    lemma_int_of_number(c.max_homophones);
    lemma_int_of_number(c.max_homographs);
    let g = mounted_grammar_section(model, c);
    let t = mounted_translator_section(model, c);
    assert(string_at(g, "language"@) == Some(model));
    assert(int_at(g, "collocation_max_length"@) == Some(c.collocation_max_length));
    assert(int_at(g, "collocation_min_length"@) == Some(c.collocation_min_length));
    assert(int_at(g, "collocation_penalty"@) == Some(c.collocation_penalty));
    assert(int_at(g, "non_collocation_penalty"@) == Some(c.non_collocation_penalty));
    assert(int_at(g, "weak_collocation_penalty"@) == Some(c.weak_collocation_penalty));
    assert(int_at(g, "rear_penalty"@) == Some(c.rear_penalty));
    assert(bool_at(t, "contextual_suggestions"@) == Some(c.contextual_suggestions));
    assert(int_at(t, "max_homophones"@) == Some(c.max_homophones));
    assert(int_at(t, "max_homographs"@) == Some(c.max_homographs));
}


// ---------------------------------------------------------------------------
// Unmounting after a mount
// ---------------------------------------------------------------------------

/// The flat `translator/...` keys a mount writes.
pub open spec fn is_flat_translator_key(k: Seq<char>) -> bool {
    k == "translator/contextual_suggestions"@ || k == "translator/max_homophones"@ || k
        == "translator/max_homographs"@
}

/// Unmounting after a mount clears every grammar key, takes the grammar's
/// settings out of the `translator` mapping, and gives every other key but
/// `translator` the value it had before the mount; the flat
/// `translator/...` keys the mount wrote are not grammar keys and stay with
/// the values the mount gave them.
pub proof fn unmount_after_mount(patch: Entries, model: Seq<char>, c: SchemaGrammarConfig, k: Seq<char>)
    requires
        keys_unique(patch),
        keys_unique(mapping_at(patch, "translator"@)),
    ensures
        is_grammar_key(k) ==> map_get(unmounted_patch(mounted_patch(patch, model, c)), k) is None,
        is_suggestion_key(k) ==> map_get(
            mapping_at(unmounted_patch(mounted_patch(patch, model, c)), "translator"@),
            k,
        ) is None,
        !is_grammar_key(k) && k != "translator"@ && !is_flat_translator_key(k) ==> map_get(
            unmounted_patch(mounted_patch(patch, model, c)),
            k,
        ) == map_get(patch, k),
        is_flat_translator_key(k) ==> map_get(unmounted_patch(mounted_patch(patch, model, c)), k) == map_get(
            mounted_patch(patch, model, c),
            k,
        ),
{
    reveal_strlit("translator");
    reveal_strlit("grammar");
    reveal_strlit("grammar/");
    reveal_strlit("grammar/language");
    reveal_strlit("grammar/collocation_max_length");
    reveal_strlit("grammar/collocation_min_length");
    reveal_strlit("grammar/collocation_penalty");
    reveal_strlit("grammar/non_collocation_penalty");
    reveal_strlit("grammar/weak_collocation_penalty");
    reveal_strlit("grammar/rear_penalty");
    reveal_strlit("translator/contextual_suggestions");
    reveal_strlit("translator/max_homophones");
    reveal_strlit("translator/max_homographs");
    let m = mounted_patch(patch, model, c);
    assert forall|mm: Entries, k1: Seq<char>, v: YamlView|
        keys_unique(mm) implies #[trigger] keys_unique(map_insert(mm, k1, v)) by {
        crate::rime::yaml::lemma_insert_unique(mm, k1, v);
    }
    assert forall|mm: Entries, k1: Seq<char>, v: YamlView, k2: Seq<char>|
        k2 != k1 implies #[trigger] map_get(map_insert(mm, k1, v), k2) == map_get(mm, k2) by {
        crate::rime::yaml::lemma_insert_other(mm, k1, v, k2);
    }
    let tk = "translator"@;
    assert(tk.len() == 10);
    assert("translator/contextual_suggestions"@.len() > 10 && "translator/max_homophones"@.len() > 10
        && "translator/max_homographs"@.len() > 10);
    assert("grammar/language"@[0] != tk[0]);
    assert("grammar/collocation_max_length"@[0] != tk[0]);
    assert("grammar/collocation_min_length"@[0] != tk[0]);
    assert("grammar/collocation_penalty"@[0] != tk[0]);
    assert("grammar/non_collocation_penalty"@[0] != tk[0]);
    assert("grammar/weak_collocation_penalty"@[0] != tk[0]);
    assert("grammar/rear_penalty"@[0] != tk[0]);
    assert(keys_unique(m));
    assert(map_get(m, tk) == map_get(patch, tk));
    assert(mapping_at(m, tk) == mapping_at(patch, tk));
    unmount_clears_grammar(m, k);
    if !is_grammar_key(k) && k != tk && !is_flat_translator_key(k) {
        assert(k != "grammar/language"@ && k != "grammar/collocation_max_length"@
            && k != "grammar/collocation_min_length"@ && k != "grammar/collocation_penalty"@
            && k != "grammar/non_collocation_penalty"@ && k != "grammar/weak_collocation_penalty"@
            && k != "grammar/rear_penalty"@) by {
            assert("grammar/language"@.take(8) =~= "grammar/"@);
            assert("grammar/collocation_max_length"@.take(8) =~= "grammar/"@);
            assert("grammar/collocation_min_length"@.take(8) =~= "grammar/"@);
            assert("grammar/collocation_penalty"@.take(8) =~= "grammar/"@);
            assert("grammar/non_collocation_penalty"@.take(8) =~= "grammar/"@);
            assert("grammar/weak_collocation_penalty"@.take(8) =~= "grammar/"@);
            assert("grammar/rear_penalty"@.take(8) =~= "grammar/"@);
        }
        assert(map_get(m, k) == map_get(patch, k));
    }
    if is_flat_translator_key(k) {
        assert(!is_grammar_key(k)) by {
            assert(k[0] != "grammar/"@[0]);
            assert(k.len() != "grammar"@.len());
            assert(k.take(8)[0] == k[0]);
        }
    }
}
} // verus!
