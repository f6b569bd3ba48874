use vstd::prelude::*;

use crate::commands::settings::{or_int, or_text};
use crate::rime::config::{contains_dot_dot, doc_get, get_in_document, get_mapping, get_sequence, get_string, has_dot_dot, key, mapping_at, string_at};
use crate::rime::edit::{int_node, list_of, put_list, put_section, section_of, string_node, take_list, take_section, with_list, with_section};
use crate::rime::schema::RimeSchema;
use crate::rime::patch::strings_view;
use crate::rime::text::{extension_of, file_extension};
use crate::rime::patch::merged;
use crate::rime::plain_merge::{lemma_plain_walk_found, lemma_walk2, merged_walk, plain_walk};
use crate::rime::yaml::{Entries, YamlMap, YamlValue, YamlView, i64_of, map_get, map_insert, mapping_of, number_of_i64, str_of, view_items};

verus! {

/// The schema list shown to the user, with the page size and the schema in use.
pub struct SchemaListData {
    pub schemas: Vec<RimeSchema>,
    pub page_size: i64,
    pub current_schema: String,
}

/// The schema last selected, from `user.yaml` (`var/previously_selected_schema`).
pub open spec fn current_schema_of(user: YamlView) -> Seq<char> {
    match doc_get(user, "var"@) {
        Some(v) => match mapping_of(v) {
            Some(m) => or_text(string_at(m, "previously_selected_schema"@), Seq::empty()),
            None => Seq::empty(),
        },
        None => Seq::empty(),
    }
}

/// The ids of the entries of a schema list that name a schema.
pub open spec fn schema_ids_in(items: Seq<YamlView>) -> Seq<Seq<char>>
    decreases items.len(),
{
    if items.len() == 0 {
        Seq::empty()
    } else {
        let rest = schema_ids_in(items.drop_last());
        match doc_get(items.last(), "schema"@) {
            Some(v) => match str_of(v) {
                Some(s) => rest.push(s),
                None => rest,
            },
            None => rest,
        }
    }
}

/// The page size of `menu/page_size`, when it is an integer; else 6.
pub open spec fn schema_page_size_of(dict: Entries) -> i64 {
    or_int(
        match map_get(mapping_at(dict, "menu"@), "page_size"@) {
            Some(v) => i64_of(v),
            None => None,
        },
        6,
    )
}

pub open spec fn schema_ids(v: Seq<RimeSchema>) -> Seq<Seq<char>> {
    v.map_values(|s: RimeSchema| s.schema_id@)
}

fn current_schema(user: &YamlValue) -> (r: String)
    ensures
        r@ == current_schema_of(user@),
{
    match get_in_document(user, "var") {
        Some(v) => match v.as_mapping() {
            Some(m) => match get_string(m, "previously_selected_schema") {
                Some(s) => s,
                None => String::new(),
            },
            None => String::new(),
        },
        None => String::new(),
    }
}

/// The schema list of the configuration in force, the page size, and the
/// schema in use according to `user.yaml` (`user` is an empty mapping when
/// that file could not be read).
pub fn get_schemas(user: &YamlValue, dict: &YamlMap) -> (r: SchemaListData)
    ensures
        r.current_schema@ == current_schema_of(user@),
        schema_ids(r.schemas@) == schema_ids_in(crate::rime::config::sequence_at(dict@, "schema_list"@)),
        forall|i: int|
            0 <= i < r.schemas@.len() ==> (#[trigger] r.schemas@[i]).enabled && r.schemas@[i].name@.len() == 0
                && r.schemas@[i].version@.len() == 0 && r.schemas@[i].dependencies@.len() == 0,
        r.page_size == schema_page_size_of(dict@),
{
    let current = current_schema(user);
    let items = get_sequence(dict, "schema_list");
    let ghost all = view_items(items@);
    proof {
        crate::rime::yaml::lemma_view_items(items@);
    }
    let mut schemas: Vec<RimeSchema> = Vec::new();
    let mut i: usize = 0;
    while i < items.len()
        invariant
            i <= items@.len(),
            all == view_items(items@),
            all.len() == items@.len(),
            forall|j: int| 0 <= j < items@.len() ==> #[trigger] all[j] == items@[j]@,
            schema_ids(schemas@) == schema_ids_in(all.take(i as int)),
            forall|j: int|
                0 <= j < schemas@.len() ==> (#[trigger] schemas@[j]).enabled && schemas@[j].name@.len() == 0
                    && schemas@[j].version@.len() == 0 && schemas@[j].dependencies@.len() == 0,
        decreases items@.len() - i,
    {
        let ghost before = schemas@;
        assert(all.take(i + 1).drop_last() =~= all.take(i as int));
        assert(all.take(i + 1).last() == items@[i as int]@);
        match get_in_document(&items[i], "schema") {
            Some(v) => match v.as_str() {
                Some(id) => {
                    let s = RimeSchema::new(id.clone());
                    schemas.push(s);
                    assert(schema_ids(schemas@) =~= schema_ids(before).push(id@));
                },
                None => {},
            },
            None => {},
        }
        i = i + 1;
    }
    assert(all.take(i as int) =~= all);
    let menu = get_mapping(dict, "menu");
    let page_size = match menu.get(&key("page_size")) {
        Some(v) => match v.as_i64() {
            Some(x) => x,
            None => 6,
        },
        None => 6,
    };
    SchemaListData { schemas, page_size, current_schema: current }
}

/// A schema-list entry: `{schema: id}`.
pub open spec fn schema_entry(id: Seq<char>) -> YamlView {
    YamlView::Mapping(seq![("schema"@, YamlView::Str(id))])
}

/// The entries of the enabled schemas, in order.
pub open spec fn enabled_entries(s: Seq<RimeSchema>) -> Seq<YamlView>
    decreases s.len(),
{
    if s.len() == 0 {
        Seq::empty()
    } else if s.last().enabled {
        enabled_entries(s.drop_last()).push(schema_entry(s.last().schema_id@))
    } else {
        enabled_entries(s.drop_last())
    }
}

/// The patch with `schema_list` set to the enabled schemas and, when a page
/// size is given, `menu/page_size` set; or the message when `menu` is no
/// mapping.
pub open spec fn saved_schemas(patch: Entries, schemas: Seq<RimeSchema>, page_size: Option<i64>) -> Result<Entries, Seq<char>> {
    let p1 = map_insert(patch, "schema_list"@, YamlView::Sequence(enabled_entries(schemas)));
    match page_size {
        None => Ok(p1),
        Some(ps) => match section_of(p1, "menu"@) {
            None => Err("menu is not a mapping"@),
            Some(m) => Ok(with_section(p1, "menu"@, map_insert(m, "page_size"@, YamlView::Number(number_of_i64(ps))))),
        },
    }
}

fn schema_entry_value(id: String) -> (v: YamlValue)
    ensures
        v@ == schema_entry(id@),
{
    let mut item = YamlMap::new();
    let ghost i = id@;
    item.insert(key("schema"), string_node(id));
    proof {
        crate::rime::yaml::lemma_find_key(Seq::<(Seq<char>, YamlView)>::empty(), "schema"@);
    }
    assert(item@ =~= seq![("schema"@, YamlView::Str(i))]);
    YamlValue::Mapping(item)
}

/// Writes the schema list (and the page size, when given) into the `default`
/// patch. On an error the patch is left as it was.
pub fn save_schemas(patch: &mut YamlMap, schemas: &Vec<RimeSchema>, page_size: Option<i64>) -> (r: Result<(), String>)
    ensures
        match saved_schemas(old(patch)@, schemas@, page_size) {
            Ok(p) => r is Ok && final(patch)@ == p,
            Err(e) => r matches Err(m) && m@ == e && final(patch)@ == old(patch)@,
        },
{
    let mut list: Vec<YamlValue> = Vec::new();
    let mut i: usize = 0;
    while i < schemas.len()
        invariant
            i <= schemas@.len(),
            view_items(list@) == enabled_entries(schemas@.take(i as int)),
        decreases schemas@.len() - i,
    {
        let ghost before = list@;
        assert(schemas@.take(i + 1).drop_last() =~= schemas@.take(i as int));
        if schemas[i].enabled {
            list.push(schema_entry_value(schemas[i].schema_id.clone()));
            proof {
                crate::rime::yaml::lemma_view_items(list@);
                crate::rime::yaml::lemma_view_items(before);
                assert(view_items(list@) =~= view_items(before).push(list@.last()@));
            }
        }
        i = i + 1;
    }
    assert(schemas@.take(i as int) =~= schemas@);
    let mut work = patch.deep_copy();
    work.insert(key("schema_list"), YamlValue::Sequence(list));
    match page_size {
        Some(ps) => {
            let mut menu = match take_section(&work, "menu") {
                Some(m) => m,
                None => return Err("menu is not a mapping".to_string()),
            };
            menu.insert(key("page_size"), int_node(ps));
            put_section(&mut work, "menu", menu);
        },
        None => {},
    }
    *patch = work;
    Ok(())
}

/// The ids of the enabled schemas, in order.
pub open spec fn enabled_ids(s: Seq<RimeSchema>) -> Seq<Seq<char>>
    decreases s.len(),
{
    if s.len() == 0 {
        Seq::empty()
    } else if s.last().enabled {
        enabled_ids(s.drop_last()).push(s.last().schema_id@)
    } else {
        enabled_ids(s.drop_last())
    }
}

proof fn lemma_enabled_entries_ids(s: Seq<RimeSchema>)
    ensures
        schema_ids_in(enabled_entries(s)) == enabled_ids(s),
    decreases s.len(),
{
    if s.len() > 0 {
        lemma_enabled_entries_ids(s.drop_last());
        if s.last().enabled {
            let e = enabled_entries(s.drop_last()).push(schema_entry(s.last().schema_id@));
            assert(e.drop_last() =~= enabled_entries(s.drop_last()));
            crate::rime::yaml::lemma_find_key(seq![("schema"@, YamlView::Str(s.last().schema_id@))], "schema"@);
        }
    }
}

/// A saved schema list reads back: the schema list of the saved patch names
/// exactly the enabled schemas, in order, and a page size that was given is
/// the one read.
pub proof fn saved_schemas_read_back(patch: Entries, schemas: Seq<RimeSchema>, page_size: Option<i64>)
    requires
        saved_schemas(patch, schemas, page_size) is Ok,
    ensures
        schema_ids_in(crate::rime::config::sequence_at(saved_schemas(patch, schemas, page_size)->Ok_0, "schema_list"@))
            == enabled_ids(schemas),
        page_size matches Some(ps) ==> schema_page_size_of(saved_schemas(patch, schemas, page_size)->Ok_0) == ps,
{
    reveal_strlit("schema_list");
    reveal_strlit("menu");
    assert("schema_list"@.len() != "menu"@.len());
    let lv = YamlView::Sequence(enabled_entries(schemas));
    let p1 = map_insert(patch, "schema_list"@, lv);
    crate::rime::yaml::lemma_insert_get(patch, "schema_list"@, lv);
    lemma_enabled_entries_ids(schemas);
    if let Some(ps) = page_size {
        let m = section_of(p1, "menu"@).unwrap();
        let pv = YamlView::Number(number_of_i64(ps));
        let m1 = map_insert(m, "page_size"@, pv);
        crate::rime::yaml::lemma_insert_get(m, "page_size"@, pv);
        crate::rime::edit::lemma_with_section_get(p1, "menu"@, m1);
        match map_get(p1, "menu"@) {
            Some(v) => {
                crate::rime::yaml::lemma_insert_other(p1, "menu"@, crate::rime::edit::rewrap(v, m1), "schema_list"@);
                crate::rime::yaml::lemma_insert_get(p1, "menu"@, crate::rime::edit::rewrap(v, m1));
            },
            None => {
                crate::rime::yaml::lemma_insert_other(p1, "menu"@, YamlView::Mapping(m1), "schema_list"@);
                crate::rime::yaml::lemma_insert_get(p1, "menu"@, YamlView::Mapping(m1));
            },
        }
        assert(mapping_at(saved_schemas(patch, schemas, page_size)->Ok_0, "menu"@) == m1);
    }
}

// ---------------------------------------------------------------------------
// Laws of the schema list
// ---------------------------------------------------------------------------

/// A list that has an entry for `id` names `id`.
proof fn lemma_listed_named(items: Seq<YamlView>, id: Seq<char>)
    requires
        lists_schema(items, id),
    ensures
        schema_ids_in(items).contains(id),
    decreases items.len(),
{
    let i = choose|i: int|
        0 <= i < items.len() && (match mapping_of(#[trigger] items[i]) {
            Some(m) => string_at(m, "schema"@) == Some(id),
            None => false,
        });
    let init = items.drop_last();
    if i == items.len() - 1 {
        let r = schema_ids_in(init).push(id);
        assert(schema_ids_in(items) == r);
        assert(r[r.len() - 1] == id);
    } else {
        assert(init[i] == items[i]);
        lemma_listed_named(init, id);
        let k = choose|k: int| 0 <= k < schema_ids_in(init).len() && schema_ids_in(init)[k] == id;
        let r0 = schema_ids_in(init);
        match doc_get(items.last(), "schema"@) {
            Some(v) => match str_of(v) {
                Some(s) => {
                    assert(schema_ids_in(items) == r0.push(s));
                    assert(r0.push(s)[k] == id);
                },
                None => {},
            },
            None => {},
        }
    }
}

/// An entry written for `id` is an entry for `id`.
proof fn lemma_entry_lists(items: Seq<YamlView>, id: Seq<char>)
    ensures
        lists_schema(items.push(schema_entry(id)), id),
{
    let m = seq![("schema"@, YamlView::Str(id))];
    crate::rime::yaml::lemma_find_key(m, "schema"@);
    let all = items.push(schema_entry(id));
    assert(mapping_of(all[items.len() as int]) == Some(m));
    assert(string_at(m, "schema"@) == Some(id));
}

/// Adding a schema to the list twice adds it once.
pub proof fn adding_schema_twice_adds_once(patch: Entries, id: Seq<char>)
    ensures
        with_schema_added(with_schema_added(patch, id), id) == with_schema_added(patch, id),
{
    let k = "schema_list"@;
    let once = with_schema_added(patch, id);
    match map_get(patch, k) {
        None => {
            let v = YamlView::Sequence(seq![schema_entry(id)]);
            crate::rime::yaml::lemma_insert_get(patch, k, v);
            lemma_entry_lists(Seq::empty(), id);
            assert(Seq::<YamlView>::empty().push(schema_entry(id)) =~= seq![schema_entry(id)]);
        },
        Some(_) => match list_of(patch, k) {
            Some(items) => {
                if !lists_schema(items, id) {
                    crate::rime::edit::lemma_with_list_get(patch, k, items.push(schema_entry(id)));
                    lemma_entry_lists(items, id);
                    match map_get(patch, k) {
                        Some(v) => crate::rime::yaml::lemma_insert_get(patch, k, crate::rime::edit::rewrap_seq(v, items.push(schema_entry(id)))),
                        None => {},
                    }
                }
            },
            None => {},
        },
    }
}

/// An added schema is listed, when `schema_list` is missing or a list.
pub proof fn added_schema_is_listed(patch: Entries, id: Seq<char>)
    requires
        map_get(patch, "schema_list"@) is None || list_of(patch, "schema_list"@) is Some,
    ensures
        schema_ids_in(crate::rime::config::sequence_at(with_schema_added(patch, id), "schema_list"@)).contains(id),
{
    let k = "schema_list"@;
    match map_get(patch, k) {
        None => {
            let v = YamlView::Sequence(seq![schema_entry(id)]);
            crate::rime::yaml::lemma_insert_get(patch, k, v);
            lemma_entry_lists(Seq::empty(), id);
            assert(Seq::<YamlView>::empty().push(schema_entry(id)) =~= seq![schema_entry(id)]);
            lemma_listed_named(seq![schema_entry(id)], id);
        },
        Some(v) => {
            let items = list_of(patch, k).unwrap();
            if lists_schema(items, id) {
                lemma_listed_named(items, id);
            } else {
                let all = items.push(schema_entry(id));
                crate::rime::yaml::lemma_insert_get(patch, k, crate::rime::edit::rewrap_seq(v, all));
                crate::rime::edit::lemma_rewrap_seq(v, all);
                lemma_entry_lists(items, id);
                lemma_listed_named(all, id);
            }
        },
    }
}

// ---------------------------------------------------------------------------
// Importing a schema file
// ---------------------------------------------------------------------------

/// Why a schema file path is refused before the file is looked at.
pub open spec fn schema_path_error(p: Seq<char>) -> Option<Seq<char>> {
    if p.len() == 0 {
        Some("File path is empty"@)
    } else if contains_dot_dot(p) {
        Some("Invalid file path: path traversal not allowed"@)
    } else {
        None
    }
}

pub fn validate_schema_path(path: &str) -> (r: Result<(), String>)
    ensures
        match schema_path_error(path@) {
            Some(e) => r matches Err(m) && m@ == e,
            None => r is Ok,
        },
{
    if path.is_empty() {
        return Err("File path is empty".to_string());
    }
    if has_dot_dot(path) {
        return Err("Invalid file path: path traversal not allowed".to_string());
    }
    Ok(())
}

/// Whether a file name has the extension `yaml` or `yml`.
pub open spec fn is_yaml_name(name: Seq<char>) -> bool {
    extension_of(name) == Some("yaml"@) || extension_of(name) == Some("yml"@)
}

/// Refuses a file whose name does not end in `.yaml` or `.yml`.
pub fn check_yaml_extension(file_name: &str) -> (r: Result<(), String>)
    ensures
        is_yaml_name(file_name@) ==> r is Ok,
        !is_yaml_name(file_name@) ==> (r matches Err(m) && m@
            == "Invalid file extension: only .yaml and .yml are supported"@),
{
    match file_extension(file_name) {
        Some(e) => {
            let yaml = "yaml".to_string();
            let yml = "yml".to_string();
            if e == yaml || e == yml {
                Ok(())
            } else {
                Err("Invalid file extension: only .yaml and .yml are supported".to_string())
            }
        },
        None => Err("Invalid file extension: only .yaml and .yml are supported".to_string()),
    }
}

/// The `schema_id` a schema document declares.
pub open spec fn declared_schema_id(doc: YamlView) -> Option<Seq<char>> {
    match doc_get(doc, "schema_id"@) {
        Some(v) => str_of(v),
        None => None,
    }
}

/// Whether a schema list already has an entry for `id`.
pub open spec fn lists_schema(items: Seq<YamlView>, id: Seq<char>) -> bool {
    exists|i: int|
        0 <= i < items.len() && (match mapping_of(#[trigger] items[i]) {
            Some(m) => string_at(m, "schema"@) == Some(id),
            None => false,
        })
}

/// The patch with an entry for `id` appended to `schema_list` (a missing list
/// is created); unchanged when the list has the entry, or when what is at
/// `schema_list` is no list.
pub open spec fn with_schema_added(patch: Entries, id: Seq<char>) -> Entries {
    match map_get(patch, "schema_list"@) {
        None => map_insert(patch, "schema_list"@, YamlView::Sequence(seq![schema_entry(id)])),
        Some(_) => match list_of(patch, "schema_list"@) {
            Some(items) => if lists_schema(items, id) {
                patch
            } else {
                with_list(patch, "schema_list"@, items.push(schema_entry(id)))
            },
            None => patch,
        },
    }
}

fn names_schema(item: &YamlValue, id: &String) -> (r: bool)
    ensures
        r == (match mapping_of(item@) {
            Some(m) => string_at(m, "schema"@) == Some(id@),
            None => false,
        }),
{
    match item.as_mapping() {
        Some(m) => match get_string(m, "schema") {
            Some(s) => s == *id,
            None => false,
        },
        None => false,
    }
}

/// Adds an entry for `id` to the schema list of the `default` patch.
pub fn add_schema_to_list(patch: &mut YamlMap, id: &String)
    ensures
        final(patch)@ == with_schema_added(old(patch)@, id@),
{
    if patch.get(&key("schema_list")).is_none() {
        let mut items: Vec<YamlValue> = Vec::new();
        items.push(schema_entry_value(id.clone()));
        proof {
            crate::rime::yaml::lemma_view_items(items@);
        }
        assert(view_items(items@) =~= seq![schema_entry(id@)]);
        patch.insert(key("schema_list"), YamlValue::Sequence(items));
        return;
    }
    match take_list(patch, "schema_list") {
        Some(items) => {
            let ghost iv = view_items(items@);
            proof {
                crate::rime::yaml::lemma_view_items(items@);
            }
            let mut i: usize = 0;
            while i < items.len()
                invariant
                    i <= items@.len(),
                    patch@ == old(patch)@,
                    map_get(patch@, "schema_list"@) is Some,
                    list_of(patch@, "schema_list"@) == Some(iv),
                    iv == view_items(items@),
                    iv.len() == items@.len(),
                    forall|j: int| 0 <= j < items@.len() ==> #[trigger] iv[j] == items@[j]@,
                    forall|j: int|
                        0 <= j < i ==> !(match mapping_of(#[trigger] iv[j]) {
                            Some(m) => string_at(m, "schema"@) == Some(id@),
                            None => false,
                        }),
                decreases items@.len() - i,
            {
                if names_schema(&items[i], id) {
                    assert(lists_schema(iv, id@)) by {
                        assert(iv[i as int] == items@[i as int]@);
                    }
                    return;
                }
                i = i + 1;
            }
            let mut items = items;
            items.push(schema_entry_value(id.clone()));
            proof {
                crate::rime::yaml::lemma_view_items(items@);
                assert(view_items(items@) =~= iv.push(schema_entry(id@)));
            }
            put_list(patch, "schema_list", items);
        },
        None => {},
    }
}

/// Adds the schema a parsed schema document declares to the schema list of
/// the `default` patch; refused when the document declares no `schema_id`.
pub fn import_schema(patch: &mut YamlMap, doc: &YamlValue) -> (r: Result<(), String>)
    ensures
        match declared_schema_id(doc@) {
            Some(id) => r is Ok && final(patch)@ == with_schema_added(old(patch)@, id),
            None => (r matches Err(m) && m@ == "No schema_id found in file"@) && final(patch)@ == old(patch)@,
        },
{
    match get_in_document(doc, "schema_id") {
        Some(v) => match v.as_str() {
            Some(id) => {
                add_schema_to_list(patch, id);
                Ok(())
            },
            None => Err("No schema_id found in file".to_string()),
        },
        None => Err("No schema_id found in file".to_string()),
    }
}


/// Saved schemas read back from the configuration in force: when the patch
/// they are saved into holds `schema_list` under a plain key (and
/// `menu/page_size` along plain keys, when a page size is saved), the
/// schemas and page size read from that patch merged over any base document
/// are those saved.
pub proof fn saved_schemas_read_back_merged(patch: Entries, schemas: Seq<RimeSchema>, page_size: Option<i64>, base: Entries)
    requires
        saved_schemas(patch, schemas, page_size) is Ok,
        plain_walk(saved_schemas(patch, schemas, page_size)->Ok_0, seq!["schema_list"@]),
        page_size is Some ==> plain_walk(saved_schemas(patch, schemas, page_size)->Ok_0, seq!["menu"@, "page_size"@]),
    ensures
        schema_ids_in(crate::rime::config::sequence_at(merged(base, saved_schemas(patch, schemas, page_size)->Ok_0), "schema_list"@))
            == enabled_ids(schemas),
        page_size matches Some(ps) ==> schema_page_size_of(merged(base, saved_schemas(patch, schemas, page_size)->Ok_0)) == ps,
{
    saved_schemas_read_back(patch, schemas, page_size);
    let p = saved_schemas(patch, schemas, page_size)->Ok_0;
    let m = merged(base, p);
    merged_walk(base, p, seq!["schema_list"@]);
    assert(seq!["schema_list"@].len() == 1 && seq!["schema_list"@][0] == "schema_list"@);
    if page_size is Some {
        merged_walk(base, p, seq!["menu"@, "page_size"@]);
        lemma_plain_walk_found(p, seq!["menu"@, "page_size"@]);
        lemma_walk2(m, "menu"@, "page_size"@);
        lemma_walk2(p, "menu"@, "page_size"@);
        assert(map_get(mapping_at(m, "menu"@), "page_size"@) == map_get(mapping_at(p, "menu"@), "page_size"@));
    }
}

} // verus!
