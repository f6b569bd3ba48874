use vstd::prelude::*;

use crate::rime::patch::{
    expand_node, expand_prefix, expanded_map, is_directive, lemma_expand_node,
    lemma_mapping_of_decreases, lemma_path_segments_of_component, lemma_segments_clean,
    nested_or_empty, path_segments, set_at_path, slash_free, delete_key, append_key,
};
use crate::rime::yaml::{
    Entries, YamlView, find_key, lemma_find_key, lemma_insert_entries,
    map_get, map_insert, mapping_of, untag,
};

verus! {

/// The number of levels a patch key stands for once split at slashes (at least one).
pub open spec fn key_weight(k: Seq<char>) -> nat {
    if path_segments(k).len() == 0 {
        1
    } else {
        path_segments(k).len()
    }
}

/// How deep a patch reaches into a document: every mapping level counts
/// once per component of its key. Merging recurses on strictly smaller reach.
pub open spec fn reach(v: YamlView) -> nat
    decreases v, 0nat,
{
    match v {
        YamlView::Mapping(m) => reach_entries(m, m.len()),
        YamlView::Tagged(_, b) => reach(*b),
        _ => 0,
    }
}

pub open spec fn reach_entries(m: Entries, n: nat) -> nat
    decreases m, n,
{
    if n == 0 || n > m.len() {
        0
    } else {
        let a = reach_entries(m, (n - 1) as nat);
        let w = key_weight(m[n - 1].0) + reach(m[n - 1].1);
        if a >= w {
            a
        } else {
            w
        }
    }
}

pub open spec fn reach_map(m: Entries) -> nat {
    reach_entries(m, m.len())
}

pub open spec fn entry_weight(e: (Seq<char>, YamlView)) -> nat {
    key_weight(e.0) + reach(e.1)
}

pub proof fn lemma_reach_lower(m: Entries, n: nat)
    requires
        n <= m.len(),
    ensures
        forall|j: int| 0 <= j < n ==> entry_weight(#[trigger] m[j]) <= reach_entries(m, n),
    decreases n,
{
    if n > 0 {
        lemma_reach_lower(m, (n - 1) as nat);
    }
}

pub proof fn lemma_reach_upper(m: Entries, n: nat, b: nat)
    requires
        n <= m.len(),
        forall|j: int| 0 <= j < n ==> entry_weight(#[trigger] m[j]) <= b,
    ensures
        reach_entries(m, n) <= b,
    decreases n,
{
    if n > 0 {
        lemma_reach_upper(m, (n - 1) as nat, b);
        assert(entry_weight(m[n - 1]) <= b);
    }
}

pub proof fn lemma_reach_mapping_of(v: YamlView)
    ensures
        mapping_of(v) matches Some(m) ==> reach(v) == reach_map(m),
    decreases v,
{
    if let YamlView::Tagged(_, b) = v {
        lemma_reach_mapping_of(*b);
    }
}

pub proof fn lemma_insert_reach(m: Entries, k: Seq<char>, v: YamlView, b: nat)
    requires
        reach_map(m) <= b,
        key_weight(k) + reach(v) <= b,
    ensures
        reach_map(map_insert(m, k, v)) <= b,
{
    let r = map_insert(m, k, v);
    lemma_insert_entries(m, k, v);
    lemma_reach_lower(m, m.len());
    assert forall|j: int| 0 <= j < r.len() implies entry_weight(#[trigger] r[j]) <= b by {
        if r[j] != (k, v) {
            let i = choose|i: int| 0 <= i < m.len() && m[i] == r[j];
            assert(entry_weight(m[i]) <= reach_map(m));
        }
    }
    lemma_reach_upper(r, r.len(), b);
}

/// A key that is a single clean component weighs one.
pub proof fn lemma_component_weight(c: Seq<char>)
    requires
        slash_free(c),
        c.len() > 0,
    ensures
        key_weight(c) == 1,
{
    lemma_path_segments_of_component(c);
}

/// Storing along a path of clean components reaches as far as the path and the value.
pub proof fn lemma_set_reach(m: Entries, p: Seq<Seq<char>>, v: YamlView, b: nat)
    requires
        p.len() >= 1,
        forall|i: int| 0 <= i < p.len() ==> key_weight(#[trigger] p[i]) == 1,
        reach_map(m) <= b,
        p.len() + reach(v) <= b,
    ensures
        reach_map(set_at_path(m, p, v)) <= b,
    decreases p.len(),
{
    assert(key_weight(p[0]) == 1);
    if p.len() == 1 {
        lemma_insert_reach(m, p[0], v, b);
    } else {
        let nested = nested_or_empty(m, p[0]);
        lemma_find_key(m, p[0]);
        lemma_reach_lower(m, m.len());
        let b2: nat = (b - 1) as nat;
        match map_get(m, p[0]) {
            Some(x) => {
                lemma_reach_mapping_of(x);
                let j = find_key(m, p[0]);
                assert(entry_weight(m[j]) <= reach_map(m));
                if mapping_of(x) is None {
                    assert(reach_map(nested) == 0) by {
                        assert(nested =~= Seq::<(Seq<char>, YamlView)>::empty());
                    }
                }
            },
            None => {
                assert(reach_map(nested) == 0) by {
                    assert(nested =~= Seq::<(Seq<char>, YamlView)>::empty());
                }
            },
        }
        assert(reach_map(nested) <= b2);
        let rest = p.drop_first();
        assert forall|i: int| 0 <= i < rest.len() implies key_weight(#[trigger] rest[i]) == 1 by {
            assert(rest[i] == p[i + 1]);
        }
        lemma_set_reach(nested, rest, v, b2);
        let inner = set_at_path(nested, rest, v);
        assert(reach(YamlView::Mapping(inner)) == reach_map(inner));
        lemma_insert_reach(m, p[0], YamlView::Mapping(inner), b);
    }
}

/// Expansion never reaches deeper than the patch it expands.
pub proof fn lemma_expand_node_reach(v: YamlView)
    ensures
        reach(expand_node(v, v)) <= reach(v),
    decreases v, 0nat,
{
    lemma_expand_node(v, v);
    lemma_reach_mapping_of(v);
    lemma_mapping_of_decreases(v);
    if let Some(m) = mapping_of(v) {
        assert(decreases_to!(v => m));
        lemma_expanded_map_reach(m);
    }
}

pub proof fn lemma_expand_prefix_reach(m: Entries, n: nat)
    requires
        n <= m.len(),
    ensures
        reach_map(expand_prefix(m, n)) <= reach_entries(m, n),
    decreases m, n,
{
    if n > 0 {
        lemma_expand_prefix_reach(m, (n - 1) as nat);
        let acc = expand_prefix(m, (n - 1) as nat);
        let e = m[n - 1];
        let b = reach_entries(m, n);
        if !is_directive(e.0) {
            let p = path_segments(e.0);
            if p.len() == 0 {
                assert(set_at_path(acc, p, expand_node(e.1, e.1)) == acc);
            } else {
                assert(decreases_to!(m => m[n - 1].1));
                lemma_expand_node_reach(e.1);
                lemma_segments_clean(e.0, Seq::empty());
                assert forall|i: int| 0 <= i < p.len() implies key_weight(#[trigger] p[i]) == 1 by {
                    lemma_component_weight(p[i]);
                }
                lemma_set_reach(acc, p, expand_node(e.1, e.1), b);
            }
        }
    }
}

pub proof fn lemma_expanded_map_reach(m: Entries)
    ensures
        reach_map(expanded_map(m)) <= reach_map(m),
    decreases m, m.len() + 1,
{
    lemma_expand_prefix_reach(m, m.len());
    lemma_reach_lower(m, m.len());
    let r = expand_prefix(m, m.len());
    let r2 = match map_get(m, delete_key()) {
        Some(d) => map_insert(r, delete_key(), d),
        None => r,
    };
    lemma_find_key(m, delete_key());
    lemma_find_key(m, append_key());
    if let Some(d) = map_get(m, delete_key()) {
        assert(entry_weight(m[find_key(m, delete_key())]) <= reach_map(m));
        lemma_insert_reach(r, delete_key(), d, reach_map(m));
    }
    if let Some(a) = map_get(m, append_key()) {
        assert(entry_weight(m[find_key(m, append_key())]) <= reach_map(m));
        lemma_insert_reach(r2, append_key(), a, reach_map(m));
    }
}

/// Every value of an expanded patch reaches strictly less far than the patch.
pub proof fn lemma_expanded_values_reach(m: Entries)
    ensures
        forall|j: int|
            0 <= j < expanded_map(m).len() ==> reach((#[trigger] expanded_map(m)[j]).1) < reach_map(m),
{
    lemma_expanded_map_reach(m);
    let x = expanded_map(m);
    lemma_reach_lower(x, x.len());
    assert forall|j: int| 0 <= j < x.len() implies reach((#[trigger] x[j]).1) < reach_map(m) by {
        assert(entry_weight(x[j]) <= reach_map(x));
    }
}

} // verus!
