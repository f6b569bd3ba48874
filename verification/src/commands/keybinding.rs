use vstd::prelude::*;

use crate::commands::settings::or_text;
use crate::rime::config::{get_mapping, get_sequence, get_string, key, mapping_at, sequence_at, string_at};
use crate::rime::edit::{put_section, section_of, string_node, take_section, with_section};
use crate::rime::patch::merged;
use crate::rime::plain_merge::{lemma_plain_walk_found, lemma_walk2, merged_walk, plain_walk};
use crate::rime::yaml::{Entries, YamlMap, YamlValue, YamlView, map_get, map_insert, mapping_of, view_items};

verus! {

/// A key binding of the `key_binder`: when `accept` is pressed in the state
/// `when`, send a key, toggle an option or select a schema.
pub struct KeyBinding {
    pub when: String,
    pub accept: String,
    pub send: String,
    pub toggle: String,
    pub select: String,
}

pub struct KeyBindingModel {
    pub when: Seq<char>,
    pub accept: Seq<char>,
    pub send: Seq<char>,
    pub toggle: Seq<char>,
    pub select: Seq<char>,
}

impl View for KeyBinding {
    type V = KeyBindingModel;

    open spec fn view(&self) -> KeyBindingModel {
        KeyBindingModel {
            when: self.when@,
            accept: self.accept@,
            send: self.send@,
            toggle: self.toggle@,
            select: self.select@,
        }
    }
}

pub open spec fn bindings_view(v: Seq<KeyBinding>) -> Seq<KeyBindingModel> {
    v.map_values(|b: KeyBinding| b@)
}

/// A text field of a binding entry: its string, or empty.
pub open spec fn field(m: Entries, k: Seq<char>) -> Seq<char> {
    or_text(string_at(m, k), Seq::empty())
}

/// The binding an entry of the list describes: it needs a mapping with a
/// non-empty `when` and `accept`.
pub open spec fn binding_of(item: YamlView) -> Option<KeyBindingModel> {
    match mapping_of(item) {
        Some(m) => if field(m, "when"@).len() > 0 && field(m, "accept"@).len() > 0 {
            Some(
                KeyBindingModel {
                    when: field(m, "when"@),
                    accept: field(m, "accept"@),
                    send: field(m, "send"@),
                    toggle: field(m, "toggle"@),
                    select: field(m, "select"@),
                },
            )
        } else {
            None
        },
        None => None,
    }
}

pub open spec fn bindings_in(items: Seq<YamlView>) -> Seq<KeyBindingModel>
    decreases items.len(),
{
    if items.len() == 0 {
        Seq::empty()
    } else {
        match binding_of(items.last()) {
            Some(b) => bindings_in(items.drop_last()).push(b),
            None => bindings_in(items.drop_last()),
        }
    }
}

/// The bindings the configuration in force holds, at `key_binder/bindings`.
pub open spec fn bindings_of(dict: Entries) -> Seq<KeyBindingModel> {
    bindings_in(sequence_at(mapping_at(dict, "key_binder"@), "bindings"@))
}

fn field_text(m: &YamlMap, k: &str) -> (r: String)
    ensures
        r@ == field(m@, k@),
{
    proof {
        reveal_strlit("");
    }
    match get_string(m, k) {
        Some(s) => s,
        None => "".to_string(),
    }
}

fn binding_from(item: &YamlValue) -> (r: Option<KeyBinding>)
    ensures
        match binding_of(item@) {
            Some(b) => r matches Some(x) && x@ == b,
            None => r is None,
        },
{
    match item.as_mapping() {
        Some(m) => {
            let when = field_text(m, "when");
            let accept = field_text(m, "accept");
            if !when.as_str().is_empty() && !accept.as_str().is_empty() {
                Some(
                    KeyBinding {
                        when,
                        accept,
                        send: field_text(m, "send"),
                        toggle: field_text(m, "toggle"),
                        select: field_text(m, "select"),
                    },
                )
            } else {
                None
            }
        },
        None => None,
    }
}

/// The key bindings of the configuration in force.
pub fn get_keybindings(dict: &YamlMap) -> (r: Vec<KeyBinding>)
    ensures
        bindings_view(r@) == bindings_of(dict@),
{
    let key_binder = get_mapping(dict, "key_binder");
    let items = get_sequence(&key_binder, "bindings");
    let ghost all = view_items(items@);
    proof {
        crate::rime::yaml::lemma_view_items(items@);
    }
    let mut r: Vec<KeyBinding> = Vec::new();
    let mut i: usize = 0;
    while i < items.len()
        invariant
            i <= items@.len(),
            all == view_items(items@),
            all.len() == items@.len(),
            forall|j: int| 0 <= j < items@.len() ==> #[trigger] all[j] == items@[j]@,
            bindings_view(r@) == bindings_in(all.take(i as int)),
        decreases items@.len() - i,
    {
        let ghost before = r@;
        assert(all.take(i + 1).drop_last() =~= all.take(i as int));
        assert(all.take(i + 1).last() == items@[i as int]@);
        match binding_from(&items[i]) {
            Some(b) => {
                r.push(b);
                assert(bindings_view(r@) =~= bindings_view(before).push(r@.last()@));
            },
            None => {},
        }
        i = i + 1;
    }
    assert(all.take(i as int) =~= all);
    r
}

/// The entry a binding is written as: `when` and `accept`, then each of
/// `send`, `toggle`, `select` that is not empty.
pub open spec fn binding_entry(b: KeyBindingModel) -> Entries {
    let m0 = map_insert(
        map_insert(Seq::empty(), "when"@, YamlView::Str(b.when)),
        "accept"@,
        YamlView::Str(b.accept),
    );
    let m1 = if b.send.len() > 0 {
        map_insert(m0, "send"@, YamlView::Str(b.send))
    } else {
        m0
    };
    let m2 = if b.toggle.len() > 0 {
        map_insert(m1, "toggle"@, YamlView::Str(b.toggle))
    } else {
        m1
    };
    if b.select.len() > 0 {
        map_insert(m2, "select"@, YamlView::Str(b.select))
    } else {
        m2
    }
}

/// The patch with `key_binder/bindings` set to the bindings (a missing
/// `key_binder` is added), or the message when `key_binder` is no mapping.
pub open spec fn saved_keybindings(patch: Entries, bindings: Seq<KeyBindingModel>) -> Result<Entries, Seq<char>> {
    match section_of(patch, "key_binder"@) {
        None => Err("key_binder is not a mapping"@),
        Some(kb) => Ok(
            with_section(
                patch,
                "key_binder"@,
                map_insert(
                    kb,
                    "bindings"@,
                    YamlView::Sequence(bindings.map_values(|b: KeyBindingModel| YamlView::Mapping(binding_entry(b)))),
                ),
            ),
        ),
    }
}

fn nonempty(s: &String) -> (r: bool)
    ensures
        r == (s@.len() > 0),
{
    !s.as_str().is_empty()
}

fn binding_value(b: &KeyBinding) -> (v: YamlValue)
    ensures
        v@ == YamlView::Mapping(binding_entry(b@)),
{
    let mut item = YamlMap::new();
    item.insert(key("when"), string_node(b.when.clone()));
    item.insert(key("accept"), string_node(b.accept.clone()));
    if nonempty(&b.send) {
        item.insert(key("send"), string_node(b.send.clone()));
    }
    if nonempty(&b.toggle) {
        item.insert(key("toggle"), string_node(b.toggle.clone()));
    }
    if nonempty(&b.select) {
        item.insert(key("select"), string_node(b.select.clone()));
    }
    YamlValue::Mapping(item)
}

/// Writes the key bindings into the `default` patch. On an error the patch is
/// left as it was.
pub fn save_keybindings(patch: &mut YamlMap, bindings: &Vec<KeyBinding>) -> (r: Result<(), String>)
    ensures
        match saved_keybindings(old(patch)@, bindings_view(bindings@)) {
            Ok(p) => r is Ok && final(patch)@ == p,
            Err(e) => r matches Err(m) && m@ == e && final(patch)@ == old(patch)@,
        },
{
    let mut seq: Vec<YamlValue> = Vec::new();
    let mut i: usize = 0;
    while i < bindings.len()
        invariant
            i <= bindings@.len(),
            seq@.len() == i,
            forall|j: int|
                0 <= j < i ==> (#[trigger] seq@[j])@ == YamlView::Mapping(binding_entry(bindings@[j]@)),
        decreases bindings@.len() - i,
    {
        seq.push(binding_value(&bindings[i]));
        i = i + 1;
    }
    proof {
        crate::rime::yaml::lemma_view_items(seq@);
        assert(view_items(seq@) =~= bindings_view(bindings@).map_values(
            |b: KeyBindingModel| YamlView::Mapping(binding_entry(b)),
        ));
    }
    let mut kb = match take_section(patch, "key_binder") {
        Some(m) => m,
        None => return Err("key_binder is not a mapping".to_string()),
    };
    kb.insert(key("bindings"), YamlValue::Sequence(seq));
    put_section(patch, "key_binder", kb);
    Ok(())
}

/// A binding is written with a non-empty `when` and `accept`.
pub open spec fn is_complete(b: KeyBindingModel) -> bool {
    b.when.len() > 0 && b.accept.len() > 0
}

proof fn lemma_entry_fields(b: KeyBindingModel)
    ensures
        field(binding_entry(b), "when"@) == b.when,
        field(binding_entry(b), "accept"@) == b.accept,
        field(binding_entry(b), "send"@) == b.send,
        field(binding_entry(b), "toggle"@) == b.toggle,
        field(binding_entry(b), "select"@) == b.select,
{
    reveal_strlit("when");
    reveal_strlit("accept");
    reveal_strlit("send");
    reveal_strlit("toggle");
    reveal_strlit("select");
    let e = Seq::<(Seq<char>, YamlView)>::empty();
    let m1 = map_insert(e, "when"@, YamlView::Str(b.when));
    let m0 = map_insert(m1, "accept"@, YamlView::Str(b.accept));
    crate::rime::yaml::lemma_find_key(e, "when"@);
    crate::rime::yaml::lemma_find_key(e, "accept"@);
    crate::rime::yaml::lemma_find_key(e, "send"@);
    crate::rime::yaml::lemma_find_key(e, "toggle"@);
    crate::rime::yaml::lemma_find_key(e, "select"@);
    crate::rime::yaml::lemma_insert_get(e, "when"@, YamlView::Str(b.when));
    crate::rime::yaml::lemma_insert_get(m1, "accept"@, YamlView::Str(b.accept));
    let ks = seq!["when"@, "accept"@, "send"@, "toggle"@, "select"@];
    assert forall|x: int, y: int| 0 <= x < 5 && 0 <= y < 5 && x != y implies ks[x] != ks[y] by {
        if ks[x] == ks[y] {
            assert(ks[x].len() == ks[y].len());
            assert(ks[x][0] == ks[y][0]);
        }
    }
    // Each insertion leaves the other fields where they were.
    assert forall|m: Entries, k: Seq<char>, v: YamlView, k2: Seq<char>|
        k2 != k implies #[trigger] map_get(map_insert(m, k, v), k2) == map_get(m, k2) by {
        crate::rime::yaml::lemma_insert_other(m, k, v, k2);
    }
    assert forall|m: Entries, k: Seq<char>, v: YamlView| #[trigger] map_get(map_insert(m, k, v), k) == Some(v) by {
        crate::rime::yaml::lemma_insert_get(m, k, v);
    }
    assert(map_get(m1, "accept"@) == None::<YamlView>);
}

/// A complete binding that is written reads back as it was.
pub proof fn binding_reads_back(b: KeyBindingModel)
    requires
        is_complete(b),
    ensures
        binding_of(YamlView::Mapping(binding_entry(b))) == Some(b),
{
    lemma_entry_fields(b);
}

proof fn lemma_bindings_in_entries(bs: Seq<KeyBindingModel>)
    requires
        forall|i: int| 0 <= i < bs.len() ==> is_complete(#[trigger] bs[i]),
    ensures
        bindings_in(bs.map_values(|b: KeyBindingModel| YamlView::Mapping(binding_entry(b)))) == bs,
    decreases bs.len(),
{
    if bs.len() > 0 {
        let items = bs.map_values(|b: KeyBindingModel| YamlView::Mapping(binding_entry(b)));
        lemma_bindings_in_entries(bs.drop_last());
        assert(items.drop_last() =~= bs.drop_last().map_values(|b: KeyBindingModel| YamlView::Mapping(binding_entry(b))));
        binding_reads_back(bs.last());
        assert(bs.drop_last().push(bs.last()) =~= bs);
    }
}

/// Saved key bindings read back as they were: the patch's
/// `key_binder/bindings` lists exactly the saved (complete) bindings.
pub proof fn saved_keybindings_read_back(patch: Entries, bindings: Seq<KeyBindingModel>)
    requires
        forall|i: int| 0 <= i < bindings.len() ==> is_complete(#[trigger] bindings[i]),
        saved_keybindings(patch, bindings) is Ok,
    ensures
        bindings_of(saved_keybindings(patch, bindings)->Ok_0) == bindings,
{
    let kb = section_of(patch, "key_binder"@).unwrap();
    let items = bindings.map_values(|b: KeyBindingModel| YamlView::Mapping(binding_entry(b)));
    let kb2 = map_insert(kb, "bindings"@, YamlView::Sequence(items));
    crate::rime::edit::lemma_with_section_get(patch, "key_binder"@, kb2);
    crate::rime::yaml::lemma_insert_get(kb, "bindings"@, YamlView::Sequence(items));
    lemma_bindings_in_entries(bindings);
}


/// Saved key bindings read back from the configuration in force: when the
/// patch they are saved into holds only plain keys on the way to
/// `key_binder/bindings`, the bindings read from that patch merged over any
/// base document are the bindings saved.
pub proof fn saved_keybindings_read_back_merged(patch: Entries, bindings: Seq<KeyBindingModel>, base: Entries)
    requires
        forall|i: int| 0 <= i < bindings.len() ==> is_complete(#[trigger] bindings[i]),
        saved_keybindings(patch, bindings) is Ok,
        plain_walk(saved_keybindings(patch, bindings)->Ok_0, seq!["key_binder"@, "bindings"@]),
    ensures
        bindings_of(merged(base, saved_keybindings(patch, bindings)->Ok_0)) == bindings,
{
    saved_keybindings_read_back(patch, bindings);
    let p = saved_keybindings(patch, bindings)->Ok_0;
    let m = merged(base, p);
    merged_walk(base, p, seq!["key_binder"@, "bindings"@]);
    lemma_plain_walk_found(p, seq!["key_binder"@, "bindings"@]);
    lemma_walk2(m, "key_binder"@, "bindings"@);
    lemma_walk2(p, "key_binder"@, "bindings"@);
    assert(sequence_at(mapping_at(m, "key_binder"@), "bindings"@) == sequence_at(mapping_at(p, "key_binder"@), "bindings"@));
}

} // verus!
