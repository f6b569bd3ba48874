use vstd::prelude::*;

use crate::rime::patch::{
    apply_appends, apply_deletions, append_key, delete_key, expand_node, expand_prefix, expanded_map, is_directive,
    lemma_expand_node, lemma_path_segments_of_component, lemma_reach_of_mapping, merge_entries, merge_value_at,
    merged, path_segments, set_at_path, slash_free,
};
use crate::rime::reach::{lemma_expanded_values_reach, reach, reach_map};
use crate::rime::yaml::{
    Entries, YamlView, find_key, keys_unique, lemma_find_key, lemma_insert_get, lemma_insert_other, map_get,
    map_insert, mapping_of,
};

verus! {

// ---------------------------------------------------------------------------
// Merging a patch written with plain keys
// ---------------------------------------------------------------------------

/// Every key is a single component: not empty, without `/`, and no
/// `__delete__` or `__append__`.
pub open spec fn keys_plain(m: Entries) -> bool {
    forall|j: int|
        0 <= j < m.len() ==> (#[trigger] m[j]).0.len() > 0 && slash_free(m[j].0) && !is_directive(m[j].0)
}

/// The entries with their values expanded.
pub open spec fn expanded_entries(m: Entries) -> Entries {
    m.map_values(|e: (Seq<char>, YamlView)| (e.0, expand_node(e.1, e.1)))
}

/// What a patch value `v` leaves under its key once merged over `b`, what
/// the base held there: a mapping meets a mapping by merging, anything else
/// replaces it.
pub open spec fn merged_value(v: YamlView, b: Option<YamlView>) -> YamlView {
    match mapping_of(v) {
        Some(m) => match b {
            Some(YamlView::Mapping(bd)) => YamlView::Mapping(merged(bd, expanded_map(m))),
            _ => YamlView::Mapping(expanded_map(m)),
        },
        None => v,
    }
}

/// Two entry lists with the same keys in the same places find a key at the
/// same place.
proof fn lemma_find_same_keys(m: Entries, n: Entries, k: Seq<char>)
    requires
        m.len() == n.len(),
        forall|j: int| 0 <= j < m.len() ==> (#[trigger] m[j]).0 == n[j].0,
    ensures
        find_key(m, k) == find_key(n, k),
{
    lemma_find_key(m, k);
    lemma_find_key(n, k);
    let i = find_key(m, k);
    let j = find_key(n, k);
    if i >= 0 && j >= 0 {
        if i < j {
            assert(n[i].0 == m[i].0);
        } else if j < i {
            assert(m[j].0 == n[j].0);
        }
    } else if i >= 0 {
        assert(n[i].0 == m[i].0);
    } else if j >= 0 {
        assert(m[j].0 == n[j].0);
    }
}

/// A key not yet present is added at the end.
proof fn lemma_insert_new(m: Entries, k: Seq<char>, v: YamlView)
    requires
        forall|j: int| 0 <= j < m.len() ==> (#[trigger] m[j]).0 != k,
    ensures
        map_insert(m, k, v) == m.push((k, v)),
{
    lemma_find_key(m, k);
}

proof fn lemma_expand_prefix_plain(m: Entries, n: nat)
    requires
        keys_plain(m),
        keys_unique(m),
        n <= m.len(),
    ensures
        expand_prefix(m, n) == expanded_entries(m.take(n as int)),
    decreases n,
{
    if n == 0 {
        assert(expanded_entries(m.take(0)) =~= Seq::<(Seq<char>, YamlView)>::empty());
    } else {
        lemma_expand_prefix_plain(m, (n - 1) as nat);
        let acc = expand_prefix(m, (n - 1) as nat);
        let e = m[n - 1];
        assert(e.0.len() > 0 && slash_free(e.0) && !is_directive(e.0));
        lemma_path_segments_of_component(e.0);
        let x = expand_node(e.1, e.1);
        assert(set_at_path(acc, path_segments(e.0), x) == map_insert(acc, e.0, x));
        assert forall|j: int| 0 <= j < acc.len() implies (#[trigger] acc[j]).0 != e.0 by {
            assert(acc[j].0 == m[j].0);
        }
        lemma_insert_new(acc, e.0, x);
        assert(expanded_entries(m.take(n as int)) =~= acc.push((e.0, x)));
    }
}

/// A patch with plain keys expands to its entries with their values
/// expanded.
pub proof fn lemma_expanded_plain(m: Entries)
    requires
        keys_plain(m),
        keys_unique(m),
    ensures
        expanded_map(m) == expanded_entries(m),
        keys_plain(expanded_entries(m)),
        keys_unique(expanded_entries(m)),
{
    lemma_expand_prefix_plain(m, m.len());
    assert(m.take(m.len() as int) =~= m);
    lemma_find_key(m, delete_key());
    lemma_find_key(m, append_key());
    if find_key(m, delete_key()) >= 0 {
        assert(is_directive(m[find_key(m, delete_key())].0));
    }
    if find_key(m, append_key()) >= 0 {
        assert(is_directive(m[find_key(m, append_key())].0));
    }
    let x = expanded_entries(m);
    assert forall|j: int| 0 <= j < x.len() implies (#[trigger] x[j]).0.len() > 0 && slash_free(x[j].0)
        && !is_directive(x[j].0) by {
        assert(x[j].0 == m[j].0);
    }
    assert forall|i: int, j: int| 0 <= i < x.len() && 0 <= j < x.len() && i != j implies x[i].0 != x[j].0 by {
        assert(x[i].0 == m[i].0 && x[j].0 == m[j].0);
    }
}

/// What an expanded entry list finds under a key: the expanded value.
proof fn lemma_expanded_get(m: Entries, k: Seq<char>)
    ensures
        map_get(expanded_entries(m), k) == match map_get(m, k) {
            Some(v) => Some(expand_node(v, v)),
            None => None::<YamlView>,
        },
{
    let x = expanded_entries(m);
    assert forall|j: int| 0 <= j < m.len() implies (#[trigger] m[j]).0 == x[j].0 by {}
    lemma_find_same_keys(m, x, k);
    lemma_find_key(m, k);
}

proof fn lemma_merge_entries_plain(base: Entries, p: Entries, n: nat, a: Seq<char>)
    requires
        keys_plain(p),
        keys_unique(p),
        n <= p.len(),
    ensures
        map_get(merge_entries(base, expanded_entries(p), n, reach_map(p)), a) == match map_get(p.take(n as int), a) {
            Some(v) => Some(merged_value(v, map_get(base, a))),
            None => map_get(base, a),
        },
    decreases n,
{
    let exp = expanded_entries(p);
    if n == 0 {
        lemma_find_key(p.take(0), a);
    } else {
        let k = p[n - 1].0;
        let v = p[n - 1].1;
        let q = p.take(n - 1);
        lemma_merge_entries_plain(base, p, (n - 1) as nat, a);
        lemma_merge_entries_plain(base, p, (n - 1) as nat, k);
        let r0 = merge_entries(base, exp, (n - 1) as nat, reach_map(p));
        assert forall|j: int| 0 <= j < q.len() implies (#[trigger] q[j]).0 != k by {
            assert(q[j].0 == p[j].0);
        }
        lemma_find_key(q, k);
        assert(map_get(q, k) is None);
        assert(map_get(r0, k) == map_get(base, k));
        lemma_insert_new(q, k, v);
        assert(p.take(n as int) =~= q.push((k, v)));
        lemma_insert_get(q, k, v);
        if a != k {
            lemma_insert_other(q, k, v, a);
        }
        let e = exp[n - 1];
        assert(e == (k, expand_node(v, v)));
        assert(!is_directive(k));
        lemma_expanded_plain(p);
        lemma_expanded_values_reach(p);
        assert(reach(e.1) < reach_map(p));
        assert(merge_entries(base, exp, n, reach_map(p)) == merge_value_at(e.1, r0, seq![k]));
        lemma_expand_node(v, v);
        let val = merged_value(v, map_get(base, k));
        match mapping_of(v) {
            Some(m) => {
                let ev = YamlView::Mapping(expanded_map(m));
                assert(e.1 == ev);
                lemma_reach_of_mapping(ev);
                assert(merge_value_at(e.1, r0, seq![k]) == map_insert(r0, k, val));
            },
            None => {
                assert(e.1 == v);
                assert(merge_value_at(e.1, r0, seq![k]) == map_insert(r0, k, val));
            },
        }
        lemma_insert_get(r0, k, val);
        if a != k {
            lemma_insert_other(r0, k, val, a);
        }
    }
}

/// Merging a patch with plain keys: a key the patch holds gets the patch's
/// value, merged with what the base held when both are mappings (the
/// patch's mapping expanded); every other key keeps what the base held.
pub proof fn merge_plain_patch(base: Entries, p: Entries, a: Seq<char>)
    requires
        keys_plain(p),
        keys_unique(p),
    ensures
        map_get(merged(base, p), a) == match map_get(p, a) {
            Some(v) => Some(merged_value(v, map_get(base, a))),
            None => map_get(base, a),
        },
{
    lemma_expanded_plain(p);
    let exp = expanded_map(p);
    lemma_find_key(exp, delete_key());
    lemma_find_key(exp, append_key());
    if find_key(exp, delete_key()) >= 0 {
        assert(is_directive(exp[find_key(exp, delete_key())].0));
    }
    if find_key(exp, append_key()) >= 0 {
        assert(is_directive(exp[find_key(exp, append_key())].0));
    }
    assert(apply_deletions(base, exp) == base);
    assert(apply_appends(base, exp) == base);
    lemma_merge_entries_plain(base, p, p.len(), a);
    assert(p.take(p.len() as int) =~= p);
}

// ---------------------------------------------------------------------------
// Reading a merged document along a path
// ---------------------------------------------------------------------------

/// The node at a path of keys, through mappings.
pub open spec fn walk(m: Entries, path: Seq<Seq<char>>) -> Option<YamlView>
    decreases path.len(),
{
    if path.len() == 0 {
        None
    } else if path.len() == 1 {
        map_get(m, path[0])
    } else {
        match map_get(m, path[0]) {
            Some(v) => match mapping_of(v) {
                Some(x) => walk(x, path.drop_first()),
                None => None,
            },
            None => None,
        }
    }
}

/// The path leads through mappings with plain keys to a value that is no
/// mapping.
pub open spec fn plain_walk(m: Entries, path: Seq<Seq<char>>) -> bool
    decreases path.len(),
{
    &&& path.len() > 0
    &&& keys_plain(m)
    &&& keys_unique(m)
    &&& match map_get(m, path[0]) {
        Some(v) => if path.len() == 1 {
            mapping_of(v) is None
        } else {
            match mapping_of(v) {
                Some(x) => plain_walk(x, path.drop_first()),
                None => false,
            }
        },
        None => false,
    }
}

proof fn lemma_walk_expanded(m: Entries, path: Seq<Seq<char>>)
    requires
        plain_walk(m, path),
    ensures
        plain_walk(expanded_map(m), path),
        walk(expanded_map(m), path) == walk(m, path),
    decreases path.len(),
{
    lemma_expanded_plain(m);
    let a = path[0];
    lemma_expanded_get(m, a);
    let v = map_get(m, a).unwrap();
    lemma_expand_node(v, v);
    if path.len() > 1 {
        let x = mapping_of(v).unwrap();
        lemma_walk_expanded(x, path.drop_first());
    }
}

/// Reading along a plain path of a patch merged over a base gives what the
/// patch holds there.
pub proof fn merged_walk(base: Entries, p: Entries, path: Seq<Seq<char>>)
    requires
        plain_walk(p, path),
    ensures
        walk(merged(base, p), path) == walk(p, path),
    decreases path.len(),
{
    let a = path[0];
    merge_plain_patch(base, p, a);
    let v = map_get(p, a).unwrap();
    if path.len() > 1 {
        let x = mapping_of(v).unwrap();
        let rest = path.drop_first();
        lemma_walk_expanded(x, rest);
        match map_get(base, a) {
            Some(YamlView::Mapping(bd)) => {
                merged_walk(bd, expanded_map(x), rest);
            },
            _ => {},
        }
    }
}


/// The node two keys down.
pub open spec fn at2(m: Entries, a: Seq<char>, b: Seq<char>) -> Option<YamlView> {
    match map_get(m, a) {
        Some(v) => match mapping_of(v) {
            Some(x) => map_get(x, b),
            None => None,
        },
        None => None,
    }
}

/// The node three keys down.
pub open spec fn at3(m: Entries, a: Seq<char>, b: Seq<char>, c: Seq<char>) -> Option<YamlView> {
    match map_get(m, a) {
        Some(v) => match mapping_of(v) {
            Some(x) => at2(x, b, c),
            None => None,
        },
        None => None,
    }
}

pub proof fn lemma_walk2(m: Entries, a: Seq<char>, b: Seq<char>)
    ensures
        walk(m, seq![a, b]) == at2(m, a, b),
{
    assert(seq![a, b].drop_first() =~= seq![b]);
    assert(seq![a, b][0] == a);
    match map_get(m, a) {
        Some(v) => match mapping_of(v) {
            Some(x) => {
                assert(walk(m, seq![a, b]) == walk(x, seq![b]));
                assert(seq![b].len() == 1 && seq![b][0] == b);
                assert(walk(x, seq![b]) == map_get(x, b));
            },
            None => {},
        },
        None => {},
    }
}

pub proof fn lemma_walk3(m: Entries, a: Seq<char>, b: Seq<char>, c: Seq<char>)
    ensures
        walk(m, seq![a, b, c]) == at3(m, a, b, c),
{
    assert(seq![a, b, c].drop_first() =~= seq![b, c]);
    match map_get(m, a) {
        Some(v) => match mapping_of(v) {
            Some(x) => lemma_walk2(x, b, c),
            None => {},
        },
        None => {},
    }
}


/// A plain path leads to a node.
pub proof fn lemma_plain_walk_found(m: Entries, path: Seq<Seq<char>>)
    requires
        plain_walk(m, path),
    ensures
        walk(m, path) is Some,
    decreases path.len(),
{
    if path.len() > 1 {
        let v = map_get(m, path[0]).unwrap();
        lemma_plain_walk_found(mapping_of(v).unwrap(), path.drop_first());
    }
}

} // verus!
