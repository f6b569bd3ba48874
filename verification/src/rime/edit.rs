use vstd::prelude::*;

use crate::rime::config::key;
use crate::rime::yaml::{Entries, YamlMap, YamlValue, YamlView, map_get, map_insert, mapping_of, number_from_i64, number_of_i64, sequence_of, view_items, copy_items};

verus! {

/// The mapping a patch holds at `k`, empty when there is nothing there;
/// `None` when what is there is no mapping.
pub open spec fn section_of(patch: Entries, k: Seq<char>) -> Option<Entries> {
    match map_get(patch, k) {
        Some(v) => mapping_of(v),
        None => Some(Seq::empty()),
    }
}

/// `v` with the mapping inside its tags replaced by `m`.
pub open spec fn rewrap(v: YamlView, m: Entries) -> YamlView
    decreases v,
{
    match v {
        YamlView::Tagged(t, b) => YamlView::Tagged(t, Box::new(rewrap(*b, m))),
        _ => YamlView::Mapping(m),
    }
}

/// What is rewrapped reads as the new mapping.
pub proof fn lemma_rewrap_mapping(v: YamlView, m: Entries)
    ensures
        mapping_of(rewrap(v, m)) == Some(m),
    decreases v,
{
    match v {
        YamlView::Tagged(t, b) => {
            lemma_rewrap_mapping(*b, m);
        },
        _ => {},
    }
}

/// After a section is replaced, the patch holds the new section there.
pub proof fn lemma_with_section_get(patch: Entries, k: Seq<char>, m: Entries)
    ensures
        section_of(with_section(patch, k, m), k) == Some(m),
{
    match map_get(patch, k) {
        Some(v) => {
            crate::rime::yaml::lemma_insert_get(patch, k, rewrap(v, m));
            lemma_rewrap_mapping(v, m);
        },
        None => {
            crate::rime::yaml::lemma_insert_get(patch, k, YamlView::Mapping(m));
        },
    }
}

/// `patch` with the mapping at `k` replaced by `m` (the tags around it kept;
/// a new key goes last).
pub open spec fn with_section(patch: Entries, k: Seq<char>, m: Entries) -> Entries {
    match map_get(patch, k) {
        Some(v) => map_insert(patch, k, rewrap(v, m)),
        None => map_insert(patch, k, YamlView::Mapping(m)),
    }
}

pub fn take_section(patch: &YamlMap, k: &str) -> (r: Option<YamlMap>)
    ensures
        match r {
            Some(m) => section_of(patch@, k@) == Some(m@),
            None => section_of(patch@, k@) == None::<Entries>,
        },
{
    match patch.get(&key(k)) {
        Some(v) => match v.as_mapping() {
            Some(m) => Some(m.deep_copy()),
            None => None,
        },
        None => Some(YamlMap::new()),
    }
}

fn rewrap_value(v: YamlValue, m: YamlMap) -> (r: YamlValue)
    ensures
        r@ == rewrap(v@, m@),
    decreases v,
{
    match v {
        YamlValue::Tagged(t, b) => {
            let inner = rewrap_value(*b, m);
            YamlValue::Tagged(t, Box::new(inner))
        },
        _ => YamlValue::Mapping(m),
    }
}

pub fn put_section(patch: &mut YamlMap, k: &str, m: YamlMap)
    ensures
        final(patch)@ == with_section(old(patch)@, k@, m@),
{
    let kk = key(k);
    let existing = match patch.get(&kk) {
        Some(v) => Some(v.deep_copy()),
        None => None,
    };
    match existing {
        Some(v) => {
            let nv = rewrap_value(v, m);
            patch.insert(kk, nv);
        },
        None => {
            patch.insert(kk, YamlValue::Mapping(m));
        },
    }
}

/// A string node.
pub fn str_node(s: &str) -> (v: YamlValue)
    ensures
        v@ == YamlView::Str(s@),
{
    YamlValue::Str(s.to_string())
}

/// A string node, taking the string.
pub fn string_node(s: String) -> (v: YamlValue)
    ensures
        v@ == YamlView::Str(s@),
{
    YamlValue::Str(s)
}

/// `v` with the list inside its tags replaced by `items`.
pub open spec fn rewrap_seq(v: YamlView, items: Seq<YamlView>) -> YamlView
    decreases v,
{
    match v {
        YamlView::Tagged(t, b) => YamlView::Tagged(t, Box::new(rewrap_seq(*b, items))),
        _ => YamlView::Sequence(items),
    }
}

/// What is rewrapped reads as the new list.
pub proof fn lemma_rewrap_seq(v: YamlView, items: Seq<YamlView>)
    ensures
        crate::rime::yaml::sequence_of(rewrap_seq(v, items)) == Some(items),
    decreases v,
{
    match v {
        YamlView::Tagged(t, b) => {
            lemma_rewrap_seq(*b, items);
        },
        _ => {},
    }
}

/// After a list is replaced, the patch holds the new list there.
pub proof fn lemma_with_list_get(patch: Entries, k: Seq<char>, items: Seq<YamlView>)
    ensures
        list_of(with_list(patch, k, items), k) == Some(items),
{
    match map_get(patch, k) {
        Some(v) => {
            crate::rime::yaml::lemma_insert_get(patch, k, rewrap_seq(v, items));
            lemma_rewrap_seq(v, items);
        },
        None => {
            crate::rime::yaml::lemma_insert_get(patch, k, YamlView::Sequence(items));
        },
    }
}

/// The list a patch holds at `k`, when what is there is a list.
pub open spec fn list_of(patch: Entries, k: Seq<char>) -> Option<Seq<YamlView>> {
    match map_get(patch, k) {
        Some(v) => sequence_of(v),
        None => None,
    }
}

/// `patch` with the list at `k` replaced by `items` (the tags around it kept).
pub open spec fn with_list(patch: Entries, k: Seq<char>, items: Seq<YamlView>) -> Entries {
    match map_get(patch, k) {
        Some(v) => map_insert(patch, k, rewrap_seq(v, items)),
        None => map_insert(patch, k, YamlView::Sequence(items)),
    }
}

pub fn take_list(patch: &YamlMap, k: &str) -> (r: Option<Vec<YamlValue>>)
    ensures
        match r {
            Some(items) => list_of(patch@, k@) == Some(view_items(items@)),
            None => list_of(patch@, k@) == None::<Seq<YamlView>>,
        },
{
    match patch.get(&key(k)) {
        Some(v) => match v.as_sequence() {
            Some(items) => Some(copy_items(items)),
            None => None,
        },
        None => None,
    }
}

fn rewrap_seq_value(v: YamlValue, items: Vec<YamlValue>) -> (r: YamlValue)
    ensures
        r@ == rewrap_seq(v@, view_items(items@)),
    decreases v,
{
    match v {
        YamlValue::Tagged(t, b) => {
            let inner = rewrap_seq_value(*b, items);
            YamlValue::Tagged(t, Box::new(inner))
        },
        _ => YamlValue::Sequence(items),
    }
}

pub fn put_list(patch: &mut YamlMap, k: &str, items: Vec<YamlValue>)
    ensures
        final(patch)@ == with_list(old(patch)@, k@, view_items(items@)),
{
    let kk = key(k);
    let existing = match patch.get(&kk) {
        Some(v) => Some(v.deep_copy()),
        None => None,
    };
    match existing {
        Some(v) => {
            let nv = rewrap_seq_value(v, items);
            patch.insert(kk, nv);
        },
        None => {
            patch.insert(kk, YamlValue::Sequence(items));
        },
    }
}

/// A boolean node.
pub fn bool_node(b: bool) -> (v: YamlValue)
    ensures
        v@ == YamlView::Bool(b),
{
    YamlValue::Bool(b)
}

/// An integer node.
pub fn int_node(i: i64) -> (v: YamlValue)
    ensures
        v@ == YamlView::Number(number_of_i64(i)),
{
    YamlValue::Number(number_from_i64(i))
}

} // verus!
