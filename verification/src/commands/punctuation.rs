use vstd::prelude::*;

use crate::commands::settings::{or_text, strs_in};
use crate::rime::config::{get_mapping, key, mapping_at, string_at};
use crate::rime::edit::{put_section, section_of, string_node, take_section, with_section};
use crate::rime::order::{KeyModel, SortKey, keys_view, sort_by_keys, sorted_by_keys};
use crate::rime::patch::strings_view;
use crate::rime::yaml::{Entries, YamlMap, YamlValue, YamlView, map_get, map_insert, mapping_of, sequence_of, str_of, view_items};

verus! {

/// How a key is punctuated: a single `commit`, a `pair` used in turn, or a
/// `list` to choose from.
pub struct PunctRule {
    pub key: String,
    pub commit: String,
    pub pair: Vec<String>,
    pub list: Vec<String>,
}

pub struct PunctRuleModel {
    pub key: Seq<char>,
    pub commit: Seq<char>,
    pub pair: Seq<Seq<char>>,
    pub list: Seq<Seq<char>>,
}

impl View for PunctRule {
    type V = PunctRuleModel;

    open spec fn view(&self) -> PunctRuleModel {
        PunctRuleModel {
            key: self.key@,
            commit: self.commit@,
            pair: strings_view(self.pair@),
            list: strings_view(self.list@),
        }
    }
}

pub open spec fn rules_view(v: Seq<PunctRule>) -> Seq<PunctRuleModel> {
    v.map_values(|r: PunctRule| r@)
}

/// The punctuation of the half-width and the full-width shapes.
pub struct PunctuationData {
    pub half_shape: Vec<PunctRule>,
    pub full_shape: Vec<PunctRule>,
}

/// The strings of the list a node holds (none when it holds no list).
pub open spec fn list_strs(v: Option<YamlView>) -> Seq<Seq<char>> {
    match v {
        Some(x) => match sequence_of(x) {
            Some(items) => strs_in(items),
            None => Seq::empty(),
        },
        None => Seq::empty(),
    }
}

/// The rule an entry `key: value` describes: a mapping gives `commit` and
/// `pair`, a list gives `list`, a string gives `commit`.
pub open spec fn rule_of(k: Seq<char>, v: YamlView) -> PunctRuleModel {
    match mapping_of(v) {
        Some(m) => PunctRuleModel {
            key: k,
            commit: or_text(string_at(m, "commit"@), Seq::empty()),
            pair: list_strs(map_get(m, "pair"@)),
            list: Seq::empty(),
        },
        None => match sequence_of(v) {
            Some(items) => PunctRuleModel { key: k, commit: Seq::empty(), pair: Seq::empty(), list: strs_in(items) },
            None => PunctRuleModel {
                key: k,
                commit: or_text(str_of(v), Seq::empty()),
                pair: Seq::empty(),
                list: Seq::empty(),
            },
        },
    }
}

/// The rules of a punctuation mapping, in the mapping's order.
pub open spec fn rules_in(m: Entries) -> Seq<PunctRuleModel>
    decreases m.len(),
{
    if m.len() == 0 {
        Seq::empty()
    } else {
        rules_in(m.drop_last()).push(rule_of(m.last().0, m.last().1))
    }
}

pub open spec fn rule_keys(rules: Seq<PunctRuleModel>) -> Seq<KeyModel> {
    rules.map_values(|r: PunctRuleModel| KeyModel::Text(r.key))
}

/// The rules of a punctuation mapping, sorted stably by key.
pub open spec fn punct_rules_of(m: Entries) -> Seq<PunctRuleModel> {
    sorted_by_keys(rules_in(m), rule_keys(rules_in(m)), false)
}

/// The strings of a list of nodes.
pub fn strs_of(items: &Vec<YamlValue>) -> (r: Vec<String>)
    ensures
        strings_view(r@) == strs_in(view_items(items@)),
{
    let ghost all = view_items(items@);
    proof {
        crate::rime::yaml::lemma_view_items(items@);
    }
    let mut r: Vec<String> = Vec::new();
    let mut i: usize = 0;
    while i < items.len()
        invariant
            i <= items@.len(),
            all == view_items(items@),
            all.len() == items@.len(),
            forall|j: int| 0 <= j < items@.len() ==> #[trigger] all[j] == items@[j]@,
            strings_view(r@) == strs_in(all.take(i as int)),
        decreases items@.len() - i,
    {
        let ghost before = r@;
        assert(all.take(i + 1).drop_last() =~= all.take(i as int));
        assert(all.take(i + 1).last() == items@[i as int]@);
        match items[i].as_str() {
            Some(s) => {
                r.push(s.clone());
                assert(strings_view(r@) =~= strings_view(before).push(s@));
            },
            None => {},
        }
        i = i + 1;
    }
    assert(all.take(i as int) =~= all);
    r
}

fn empty_text() -> (r: String)
    ensures
        r@ == Seq::<char>::empty(),
{
    String::new()
}

fn rule_from(k: &String, v: &YamlValue) -> (r: PunctRule)
    ensures
        r@ == rule_of(k@, v@),
{
    let none: Vec<String> = Vec::new();
    assert(strings_view(none@) =~= Seq::<Seq<char>>::empty());
    match v.as_mapping() {
        Some(m) => {
            let commit = match m.get(&key("commit")) {
                Some(c) => match c.as_str() {
                    Some(s) => s.clone(),
                    None => empty_text(),
                },
                None => empty_text(),
            };
            let pair = match m.get(&key("pair")) {
                Some(p) => match p.as_sequence() {
                    Some(items) => strs_of(items),
                    None => Vec::new(),
                },
                None => Vec::new(),
            };
            PunctRule { key: k.clone(), commit, pair, list: none }
        },
        None => match v.as_sequence() {
            Some(items) => PunctRule { key: k.clone(), commit: empty_text(), pair: Vec::new(), list: strs_of(items) },
            None => {
                let commit = match v.as_str() {
                    Some(s) => s.clone(),
                    None => empty_text(),
                };
                PunctRule { key: k.clone(), commit, pair: Vec::new(), list: none }
            },
        },
    }
}

/// The rules of a punctuation mapping, sorted by key.
pub fn parse_punct_dict(dict: &YamlMap) -> (r: Vec<PunctRule>)
    ensures
        rules_view(r@) == punct_rules_of(dict@),
{
    let mut rules: Vec<PunctRule> = Vec::new();
    let mut keys: Vec<SortKey> = Vec::new();
    let n = dict.len();
    let mut i: usize = 0;
    while i < n
        invariant
            n == dict@.len(),
            i <= n,
            rules@.len() == i,
            keys@.len() == i,
            rules_view(rules@) == rules_in(dict@.take(i as int)),
            keys_view(keys@) == rule_keys(rules_in(dict@.take(i as int))),
        decreases n - i,
    {
        let ghost before = rules@;
        let ghost before_keys = keys@;
        assert(dict@.take(i + 1).drop_last() =~= dict@.take(i as int));
        let k = dict.key_at(i);
        let v = dict.value_at_index(i);
        let rule = rule_from(k, v);
        keys.push(SortKey::Text(k.clone()));
        rules.push(rule);
        assert(rules_view(rules@) =~= rules_view(before).push(rules@.last()@));
        assert(keys_view(keys@) =~= keys_view(before_keys).push(KeyModel::Text(k@)));
        assert(rule_keys(rules_in(dict@.take(i + 1))) =~= rule_keys(rules_in(dict@.take(i as int))).push(KeyModel::Text(k@)));
        i = i + 1;
    }
    assert(dict@.take(n as int) =~= dict@);
    let ghost unsorted = rules@;
    let ghost kv = keys_view(keys@);
    let r = sort_by_keys(rules, keys, false);
    proof {
        crate::rime::order::lemma_sorted_map(unsorted, kv, false, |x: PunctRule| x@);
    }
    r
}

/// The punctuation of the configuration in force (`punctuator/half_shape` and
/// `punctuator/full_shape`).
pub fn get_punctuation(dict: &YamlMap) -> (r: PunctuationData)
    ensures
        rules_view(r.half_shape@) == punct_rules_of(mapping_at(mapping_at(dict@, "punctuator"@), "half_shape"@)),
        rules_view(r.full_shape@) == punct_rules_of(mapping_at(mapping_at(dict@, "punctuator"@), "full_shape"@)),
{
    let punctuator = get_mapping(dict, "punctuator");
    let half = parse_punct_dict(&get_mapping(&punctuator, "half_shape"));
    let full = parse_punct_dict(&get_mapping(&punctuator, "full_shape"));
    PunctuationData { half_shape: half, full_shape: full }
}

/// The node a rule is written as: its commit when there is one, else its
/// pair, else its list; `None` when all three are empty.
pub open spec fn rule_node(r: PunctRuleModel) -> Option<YamlView> {
    if r.commit.len() > 0 {
        Some(YamlView::Mapping(seq![("commit"@, YamlView::Str(r.commit))]))
    } else if r.pair.len() > 0 {
        Some(
            YamlView::Mapping(
                seq![("pair"@, YamlView::Sequence(r.pair.map_values(|s: Seq<char>| YamlView::Str(s))))],
            ),
        )
    } else if r.list.len() > 0 {
        Some(YamlView::Sequence(r.list.map_values(|s: Seq<char>| YamlView::Str(s))))
    } else {
        None
    }
}

/// The punctuation mapping the rules are written as, in order (a later rule
/// for the same key replaces an earlier one in its place).
pub open spec fn serialized_rules(rules: Seq<PunctRuleModel>) -> Entries
    decreases rules.len(),
{
    if rules.len() == 0 {
        Seq::empty()
    } else {
        let m = serialized_rules(rules.drop_last());
        match rule_node(rules.last()) {
            Some(v) => map_insert(m, rules.last().key, v),
            None => m,
        }
    }
}

fn str_nodes(v: &Vec<String>) -> (r: Vec<YamlValue>)
    ensures
        view_items(r@) == strings_view(v@).map_values(|s: Seq<char>| YamlView::Str(s)),
{
    let mut r: Vec<YamlValue> = Vec::new();
    let mut i: usize = 0;
    while i < v.len()
        invariant
            i <= v@.len(),
            r@.len() == i,
            forall|j: int| 0 <= j < i ==> (#[trigger] r@[j])@ == YamlView::Str(v@[j]@),
        decreases v@.len() - i,
    {
        r.push(string_node(v[i].clone()));
        i = i + 1;
    }
    proof {
        crate::rime::yaml::lemma_view_items(r@);
        assert(view_items(r@) =~= strings_view(v@).map_values(|s: Seq<char>| YamlView::Str(s)));
    }
    r
}

fn rule_value(r: &PunctRule) -> (v: Option<YamlValue>)
    ensures
        match rule_node(r@) {
            Some(n) => v matches Some(x) && x@ == n,
            None => v is None,
        },
{
    if !r.commit.as_str().is_empty() {
        let mut inner = YamlMap::new();
        inner.insert(key("commit"), string_node(r.commit.clone()));
        proof {
            crate::rime::yaml::lemma_find_key(Seq::<(Seq<char>, YamlView)>::empty(), "commit"@);
        }
        assert(inner@ =~= seq![("commit"@, YamlView::Str(r.commit@))]);
        Some(YamlValue::Mapping(inner))
    } else if r.pair.len() > 0 {
        let mut inner = YamlMap::new();
        let items = str_nodes(&r.pair);
        let ghost iv = view_items(items@);
        inner.insert(key("pair"), YamlValue::Sequence(items));
        proof {
            crate::rime::yaml::lemma_find_key(Seq::<(Seq<char>, YamlView)>::empty(), "pair"@);
        }
        assert(inner@ =~= seq![("pair"@, YamlView::Sequence(iv))]);
        Some(YamlValue::Mapping(inner))
    } else if r.list.len() > 0 {
        Some(YamlValue::Sequence(str_nodes(&r.list)))
    } else {
        None
    }
}

/// The punctuation mapping the rules are written as.
pub fn serialize_punct_rules(rules: &Vec<PunctRule>) -> (m: YamlMap)
    ensures
        m@ == serialized_rules(rules_view(rules@)),
{
    let mut dict = YamlMap::new();
    let mut i: usize = 0;
    while i < rules.len()
        invariant
            i <= rules@.len(),
            dict@ == serialized_rules(rules_view(rules@).take(i as int)),
        decreases rules@.len() - i,
    {
        assert(rules_view(rules@).take(i + 1).drop_last() =~= rules_view(rules@).take(i as int));
        assert(rules_view(rules@).take(i + 1).last() == rules@[i as int]@);
        match rule_value(&rules[i]) {
            Some(v) => {
                dict.insert(rules[i].key.clone(), v);
            },
            None => {},
        }
        i = i + 1;
    }
    assert(rules_view(rules@).take(i as int) =~= rules_view(rules@));
    dict
}

/// The patch with the punctuation written in (a missing `punctuator` is
/// added), or the message when `punctuator` is no mapping.
pub open spec fn saved_punctuation(
    patch: Entries,
    half: Seq<PunctRuleModel>,
    full: Seq<PunctRuleModel>,
) -> Result<Entries, Seq<char>> {
    match section_of(patch, "punctuator"@) {
        None => Err("punctuator is not a mapping"@),
        Some(p) => Ok(
            with_section(
                patch,
                "punctuator"@,
                map_insert(
                    map_insert(p, "half_shape"@, YamlView::Mapping(serialized_rules(half))),
                    "full_shape"@,
                    YamlView::Mapping(serialized_rules(full)),
                ),
            ),
        ),
    }
}

/// Writes the punctuation into the `default` patch. On an error the patch is
/// left as it was.
pub fn save_punctuation(patch: &mut YamlMap, half: &Vec<PunctRule>, full: &Vec<PunctRule>) -> (r: Result<(), String>)
    ensures
        match saved_punctuation(old(patch)@, rules_view(half@), rules_view(full@)) {
            Ok(p) => r is Ok && final(patch)@ == p,
            Err(e) => r matches Err(m) && m@ == e && final(patch)@ == old(patch)@,
        },
{
    let mut p = match take_section(patch, "punctuator") {
        Some(m) => m,
        None => return Err("punctuator is not a mapping".to_string()),
    };
    p.insert(key("half_shape"), YamlValue::Mapping(serialize_punct_rules(half)));
    p.insert(key("full_shape"), YamlValue::Mapping(serialize_punct_rules(full)));
    put_section(patch, "punctuator", p);
    Ok(())
}

// ---------------------------------------------------------------------------
// Saved punctuation reads back
// ---------------------------------------------------------------------------

/// A rule as it reads back once written: only its commit when it has one,
/// else only its pair, else only its list.
pub open spec fn rule_as_read(r: PunctRuleModel) -> PunctRuleModel {
    if r.commit.len() > 0 {
        PunctRuleModel { key: r.key, commit: r.commit, pair: Seq::empty(), list: Seq::empty() }
    } else if r.pair.len() > 0 {
        PunctRuleModel { key: r.key, commit: Seq::empty(), pair: r.pair, list: Seq::empty() }
    } else {
        PunctRuleModel { key: r.key, commit: Seq::empty(), pair: Seq::empty(), list: r.list }
    }
}

/// The rules that are written (those with a commit, a pair or a list), in
/// order, as they read back.
pub open spec fn written_rules(rules: Seq<PunctRuleModel>) -> Seq<PunctRuleModel>
    decreases rules.len(),
{
    if rules.len() == 0 {
        Seq::empty()
    } else {
        let w = written_rules(rules.drop_last());
        match rule_node(rules.last()) {
            Some(_) => w.push(rule_as_read(rules.last())),
            None => w,
        }
    }
}

/// No two rules share a key.
pub open spec fn keys_distinct(rules: Seq<PunctRuleModel>) -> bool {
    forall|i: int, j: int| 0 <= i < rules.len() && 0 <= j < rules.len() && i != j ==> rules[i].key != rules[j].key
}

proof fn lemma_strs_of_strs(ts: Seq<Seq<char>>)
    ensures
        strs_in(ts.map_values(|t: Seq<char>| YamlView::Str(t))) == ts,
    decreases ts.len(),
{
    if ts.len() > 0 {
        lemma_strs_of_strs(ts.drop_last());
        assert(ts.map_values(|t: Seq<char>| YamlView::Str(t)).drop_last() =~= ts.drop_last().map_values(
            |t: Seq<char>| YamlView::Str(t),
        ));
        assert(ts.drop_last().push(ts.last()) =~= ts);
    }
}

/// A written rule reads back as `rule_as_read`.
proof fn lemma_rule_node_read(r: PunctRuleModel)
    requires
        rule_node(r) is Some,
    ensures
        rule_of(r.key, rule_node(r)->Some_0) == rule_as_read(r),
{
    reveal_strlit("commit");
    reveal_strlit("pair");
    if r.commit.len() > 0 {
        let m = seq![("commit"@, YamlView::Str(r.commit))];
        crate::rime::yaml::lemma_find_key(m, "commit"@);
        crate::rime::yaml::lemma_find_key(m, "pair"@);
        assert("commit"@.len() != "pair"@.len());
    } else if r.pair.len() > 0 {
        let m = seq![("pair"@, YamlView::Sequence(r.pair.map_values(|s: Seq<char>| YamlView::Str(s))))];
        crate::rime::yaml::lemma_find_key(m, "commit"@);
        crate::rime::yaml::lemma_find_key(m, "pair"@);
        assert("commit"@.len() != "pair"@.len());
        lemma_strs_of_strs(r.pair);
    } else {
        lemma_strs_of_strs(r.list);
    }
}

/// A key no rule has is not in the written mapping.
proof fn lemma_serialized_keys(rules: Seq<PunctRuleModel>, k: Seq<char>)
    requires
        forall|i: int| 0 <= i < rules.len() ==> rules[i].key != k,
    ensures
        crate::rime::yaml::find_key(serialized_rules(rules), k) == -1,
    decreases rules.len(),
{
    if rules.len() > 0 {
        let m = serialized_rules(rules.drop_last());
        lemma_serialized_keys(rules.drop_last(), k);
        crate::rime::yaml::lemma_find_key(m, k);
        match rule_node(rules.last()) {
            Some(v) => {
                let m2 = map_insert(m, rules.last().key, v);
                crate::rime::yaml::lemma_find_key(m, rules.last().key);
                crate::rime::yaml::lemma_find_key(m2, k);
                assert forall|j: int| 0 <= j < m2.len() implies m2[j].0 != k by {
                    if j < m.len() && m2[j] != (rules.last().key, v) {
                        assert(m2[j] == m[j]);
                    }
                }
            },
            None => {},
        }
    }
}

proof fn lemma_rules_in_serialized(rules: Seq<PunctRuleModel>)
    requires
        keys_distinct(rules),
    ensures
        rules_in(serialized_rules(rules)) == written_rules(rules),
    decreases rules.len(),
{
    if rules.len() > 0 {
        let init = rules.drop_last();
        assert(keys_distinct(init));
        lemma_rules_in_serialized(init);
        let m = serialized_rules(init);
        match rule_node(rules.last()) {
            Some(v) => {
                assert forall|i: int| 0 <= i < init.len() implies init[i].key != rules.last().key by {
                    assert(init[i] == rules[i]);
                }
                lemma_serialized_keys(init, rules.last().key);
                assert(map_insert(m, rules.last().key, v) == m.push((rules.last().key, v)));
                assert(m.push((rules.last().key, v)).drop_last() =~= m);
                lemma_rule_node_read(rules.last());
            },
            None => {},
        }
    }
}

/// Saved punctuation reads back as it was saved: when no two rules share a
/// key, the half-width and full-width rules read from the saved patch are the
/// written rules (those with a commit, a pair or a list, each holding only
/// the first of these), sorted by key.
pub proof fn saved_punctuation_reads_back(patch: Entries, half: Seq<PunctRuleModel>, full: Seq<PunctRuleModel>)
    requires
        keys_distinct(half),
        keys_distinct(full),
        saved_punctuation(patch, half, full) is Ok,
    ensures
        punct_rules_of(mapping_at(mapping_at(saved_punctuation(patch, half, full)->Ok_0, "punctuator"@), "half_shape"@))
            == sorted_by_keys(written_rules(half), rule_keys(written_rules(half)), false),
        punct_rules_of(mapping_at(mapping_at(saved_punctuation(patch, half, full)->Ok_0, "punctuator"@), "full_shape"@))
            == sorted_by_keys(written_rules(full), rule_keys(written_rules(full)), false),
{
    reveal_strlit("half_shape");
    reveal_strlit("full_shape");
    let p = section_of(patch, "punctuator"@).unwrap();
    let hv = YamlView::Mapping(serialized_rules(half));
    let fv = YamlView::Mapping(serialized_rules(full));
    let p1 = map_insert(p, "half_shape"@, hv);
    let p2 = map_insert(p1, "full_shape"@, fv);
    crate::rime::edit::lemma_with_section_get(patch, "punctuator"@, p2);
    assert("half_shape"@[0] != "full_shape"@[0]);
    crate::rime::yaml::lemma_insert_get(p, "half_shape"@, hv);
    crate::rime::yaml::lemma_insert_other(p1, "full_shape"@, fv, "half_shape"@);
    crate::rime::yaml::lemma_insert_get(p1, "full_shape"@, fv);
    let out = with_section(patch, "punctuator"@, p2);
    assert(mapping_at(out, "punctuator"@) == p2);
    lemma_rules_in_serialized(half);
    lemma_rules_in_serialized(full);
}


/// A rule with exactly one of a commit, a pair and a list.
pub open spec fn single_form(r: PunctRuleModel) -> bool {
    (r.commit.len() > 0 && r.pair.len() == 0 && r.list.len() == 0) || (r.commit.len() == 0 && r.pair.len() > 0
        && r.list.len() == 0) || (r.commit.len() == 0 && r.pair.len() == 0 && r.list.len() > 0)
}

proof fn lemma_written_single(rules: Seq<PunctRuleModel>)
    requires
        forall|i: int| 0 <= i < rules.len() ==> single_form(#[trigger] rules[i]),
    ensures
        written_rules(rules) == rules,
    decreases rules.len(),
{
    if rules.len() > 0 {
        let init = rules.drop_last();
        assert forall|i: int| 0 <= i < init.len() implies single_form(#[trigger] init[i]) by {
            assert(init[i] == rules[i]);
        }
        lemma_written_single(init);
        let r = rules.last();
        assert(single_form(rules[rules.len() - 1]));
        if r.commit.len() == 0 {
            assert(r.commit =~= Seq::<char>::empty());
        }
        if r.pair.len() == 0 {
            assert(r.pair =~= Seq::<Seq<char>>::empty());
        }
        if r.list.len() == 0 {
            assert(r.list =~= Seq::<Seq<char>>::empty());
        }
        assert(rule_as_read(r) == r);
        assert(init.push(r) =~= rules);
    }
}

/// Serialized rules parse back: when no two rules share a key, the rules
/// parsed from the mapping they are written as are the written rules (those
/// with a commit, a pair or a list, each holding only the first of these),
/// sorted by key; rules that each hold exactly one of the three come back
/// themselves, sorted by key.
pub proof fn serialized_rules_parse_back(rules: Seq<PunctRuleModel>)
    requires
        keys_distinct(rules),
    ensures
        punct_rules_of(serialized_rules(rules)) == sorted_by_keys(
            written_rules(rules),
            rule_keys(written_rules(rules)),
            false,
        ),
        (forall|i: int| 0 <= i < rules.len() ==> single_form(#[trigger] rules[i])) ==> punct_rules_of(
            serialized_rules(rules),
        ) == sorted_by_keys(rules, rule_keys(rules), false),
{
    lemma_rules_in_serialized(rules);
    if forall|i: int| 0 <= i < rules.len() ==> single_form(#[trigger] rules[i]) {
        lemma_written_single(rules);
    }
}
} // verus!
