use vstd::prelude::*;

use crate::rime::text::{chars_of, string_of};
use crate::rime::reach::{lemma_expanded_values_reach, reach, reach_map};
use crate::rime::yaml::{
    YamlMap, YamlValue, YamlView, Entries, copy_items, keys_unique, lemma_insert_get,
    lemma_insert_unique, lemma_remove_unique, lemma_view_items, map_get, map_insert, map_remove,
    mapping_of, sequence_of, str_of, view_items,
};

verus! {

broadcast use vstd::string::group_string_axioms;

// ---------------------------------------------------------------------------
// Key paths
// ---------------------------------------------------------------------------

/// The non-empty runs of `s` between slashes, `cur` being the run already read.
pub open spec fn segments_from(s: Seq<char>, cur: Seq<char>) -> Seq<Seq<char>>
    decreases s.len(),
{
    if s.len() == 0 {
        if cur.len() > 0 {
            seq![cur]
        } else {
            Seq::empty()
        }
    } else if s[0] == '/' {
        (if cur.len() > 0 {
            seq![cur]
        } else {
            Seq::empty()
        }) + segments_from(s.drop_first(), Seq::empty())
    } else {
        segments_from(s.drop_first(), cur.push(s[0]))
    }
}

/// The components of a slash-separated key: `"style/font_face"` is
/// `["style", "font_face"]`; empty components are dropped.
pub open spec fn path_segments(key: Seq<char>) -> Seq<Seq<char>> {
    segments_from(key, Seq::empty())
}

pub open spec fn slash_free(s: Seq<char>) -> bool {
    forall|i: int| 0 <= i < s.len() ==> s[i] != '/'
}

/// Every component is non-empty and holds no slash.
pub proof fn lemma_segments_clean(s: Seq<char>, cur: Seq<char>)
    requires
        slash_free(cur),
    ensures
        forall|i: int|
            0 <= i < segments_from(s, cur).len() ==> (#[trigger] segments_from(s, cur)[i]).len() > 0
                && slash_free(segments_from(s, cur)[i]),
    decreases s.len(),
{
    if s.len() > 0 {
        if s[0] == '/' {
            lemma_segments_clean(s.drop_first(), Seq::empty());
            let head: Seq<Seq<char>> = if cur.len() > 0 {
                seq![cur]
            } else {
                Seq::empty()
            };
            let tail = segments_from(s.drop_first(), Seq::empty());
            assert(segments_from(s, cur) == head + tail);
            assert forall|i: int| 0 <= i < (head + tail).len() implies (#[trigger] (head + tail)[i]).len() > 0
                && slash_free((head + tail)[i]) by {
                if i >= head.len() {
                    assert((head + tail)[i] == tail[i - head.len()]);
                }
            }
        } else {
            assert(slash_free(cur.push(s[0])));
            lemma_segments_clean(s.drop_first(), cur.push(s[0]));
            assert(segments_from(s, cur) == segments_from(s.drop_first(), cur.push(s[0])));
        }
    } else if cur.len() > 0 {
        assert(segments_from(s, cur) == seq![cur]);
        assert(seq![cur][0] == cur);
    } else {
        assert(segments_from(s, cur).len() == 0);
    }
}

/// A non-empty key without slashes is its own single component.
pub proof fn lemma_segments_single(c: Seq<char>, cur: Seq<char>)
    requires
        slash_free(c),
        slash_free(cur),
        (cur + c).len() > 0,
    ensures
        segments_from(c, cur) == seq![cur + c],
    decreases c.len(),
{
    if c.len() == 0 {
        assert(cur + c =~= cur);
    } else {
        lemma_segments_single(c.drop_first(), cur.push(c[0]));
        assert(cur.push(c[0]) + c.drop_first() =~= cur + c);
    }
}

/// Splitting a key reads a slash-free start into the current component.
pub proof fn lemma_segments_prefix(a: Seq<char>, rest: Seq<char>, cur: Seq<char>)
    requires
        slash_free(a),
    ensures
        segments_from(a + rest, cur) == segments_from(rest, cur + a),
    decreases a.len(),
{
    if a.len() == 0 {
        assert(a + rest =~= rest);
        assert(cur + a =~= cur);
    } else {
        lemma_segments_prefix(a.drop_first(), rest, cur.push(a[0]));
        assert((a + rest).drop_first() =~= a.drop_first() + rest);
        assert((a + rest)[0] == a[0]);
        assert(cur.push(a[0]) + a.drop_first() =~= cur + a);
    }
}

/// `a/b` splits into `a` and `b`.
pub proof fn lemma_path_segments_pair(a: Seq<char>, b: Seq<char>)
    requires
        slash_free(a),
        slash_free(b),
        a.len() > 0,
        b.len() > 0,
    ensures
        path_segments(a + "/"@ + b) == seq![a, b],
{
    reveal_strlit("/");
    let sb = "/"@ + b;
    assert(a + "/"@ + b =~= a + sb);
    lemma_segments_prefix(a, sb, Seq::empty());
    assert(sb[0] == '/');
    assert(sb.drop_first() =~= b);
    lemma_segments_single(b, Seq::empty());
    assert(Seq::<char>::empty() + a =~= a);
    assert(Seq::<char>::empty() + b =~= b);
    assert(seq![a] + seq![b] =~= seq![a, b]);
}

pub proof fn lemma_path_segments_of_component(c: Seq<char>)
    requires
        slash_free(c),
        c.len() > 0,
    ensures
        path_segments(c) == seq![c],
{
    lemma_segments_single(c, Seq::empty());
    assert(Seq::<char>::empty() + c =~= c);
}

pub open spec fn strings_view(v: Seq<String>) -> Seq<Seq<char>> {
    v.map_values(|s: String| s@)
}

pub fn split_path(key: &str) -> (parts: Vec<String>)
    ensures
        strings_view(parts@) == path_segments(key@),
{
    let chars = chars_of(key);
    let mut parts: Vec<String> = Vec::new();
    let mut cur: Vec<char> = Vec::new();
    let mut i: usize = 0;
    assert(chars@.skip(0) =~= chars@);
    assert(strings_view(parts@) + segments_from(chars@.skip(0), cur@) =~= segments_from(chars@, cur@));
    while i < chars.len()
        invariant
            i <= chars@.len(),
            chars@ == key@,
            strings_view(parts@) + segments_from(chars@.skip(i as int), cur@) == path_segments(key@),
        decreases chars@.len() - i,
    {
        let ghost rest = chars@.skip(i as int);
        let ghost before = parts@;
        let ghost old_cur = cur@;
        assert(rest.drop_first() =~= chars@.skip(i + 1));
        assert(rest[0] == chars@[i as int]);
        let c = chars[i];
        if c == '/' {
            if cur.len() > 0 {
                assert(segments_from(rest, old_cur) == seq![old_cur] + segments_from(rest.drop_first(), Seq::empty()));
                let seg = string_of(cur.as_slice());
                parts.push(seg);
                assert(strings_view(parts@) =~= strings_view(before) + seq![old_cur]);
                cur = Vec::new();
                assert(strings_view(parts@) + segments_from(chars@.skip(i + 1), cur@) =~= strings_view(before) + (seq![old_cur] + segments_from(rest.drop_first(), Seq::empty())));
            } else {
                assert(old_cur =~= Seq::<char>::empty());
                assert(segments_from(rest, old_cur) =~= segments_from(rest.drop_first(), Seq::empty()));
            }
        } else {
            cur.push(c);
            assert(segments_from(rest, old_cur) == segments_from(rest.drop_first(), cur@));
        }
        i = i + 1;
    }
    if cur.len() > 0 {
        let seg = string_of(cur.as_slice());
        let ghost before = parts@;
        parts.push(seg);
        assert(strings_view(parts@) =~= strings_view(before) + seq![cur@]);
    } else {
        assert(cur@ =~= Seq::<char>::empty());
        assert(chars@.skip(i as int) =~= Seq::<char>::empty());
        assert(strings_view(parts@) =~= strings_view(parts@) + segments_from(chars@.skip(i as int), cur@));
    }
    parts
}

// ---------------------------------------------------------------------------
// Reading and writing along a path
// ---------------------------------------------------------------------------

/// The node found by following `path` through nested mappings.
pub open spec fn value_at_path(m: Entries, path: Seq<Seq<char>>) -> Option<YamlView>
    decreases path.len(),
{
    if path.len() == 0 {
        None
    } else if path.len() == 1 {
        map_get(m, path[0])
    } else {
        match map_get(m, path[0]) {
            Some(YamlView::Mapping(n)) => value_at_path(n, path.drop_first()),
            _ => None,
        }
    }
}

/// The mapping reached at `k`, or an empty one.
pub open spec fn nested_or_empty(m: Entries, k: Seq<char>) -> Entries {
    match map_get(m, k) {
        Some(x) => match mapping_of(x) {
            Some(n) => n,
            None => Seq::empty(),
        },
        None => Seq::empty(),
    }
}

/// `m` with `v` stored at `path`, creating (or replacing by) mappings on the way.
pub open spec fn set_at_path(m: Entries, path: Seq<Seq<char>>, v: YamlView) -> Entries
    decreases path.len(),
{
    if path.len() == 0 {
        m
    } else if path.len() == 1 {
        map_insert(m, path[0], v)
    } else {
        map_insert(
            m,
            path[0],
            YamlView::Mapping(set_at_path(nested_or_empty(m, path[0]), path.drop_first(), v)),
        )
    }
}

/// `m` without the node at `path`; a mapping left empty by the removal goes too.
pub open spec fn remove_at_path(m: Entries, path: Seq<Seq<char>>) -> Entries
    decreases path.len(),
{
    if path.len() == 0 {
        m
    } else if path.len() == 1 {
        map_remove(m, path[0])
    } else {
        match map_get(m, path[0]) {
            Some(YamlView::Mapping(n)) => {
                let nn = remove_at_path(n, path.drop_first());
                if nn.len() == 0 {
                    map_remove(m, path[0])
                } else {
                    map_insert(m, path[0], YamlView::Mapping(nn))
                }
            },
            _ => m,
        }
    }
}

fn value_at_from<'a>(dict: &'a YamlMap, path: &[String], start: usize) -> (r: Option<&'a YamlValue>)
    requires
        start <= path@.len(),
    ensures
        match r {
            Some(v) => value_at_path(dict@, strings_view(path@.skip(start as int))) == Some(v@),
            None => value_at_path(dict@, strings_view(path@.skip(start as int))) == None::<YamlView>,
        },
    decreases path@.len() - start,
{
    let ghost p = strings_view(path@.skip(start as int));
    if start == path.len() {
        return None;
    }
    assert(p[0] == path@[start as int]@);
    assert(p.drop_first() =~= strings_view(path@.skip(start + 1)));
    if start + 1 == path.len() {
        return dict.get(&path[start]);
    }
    match dict.get(&path[start]) {
        Some(YamlValue::Mapping(nested)) => value_at_from(nested, path, start + 1),
        _ => None,
    }
}

pub fn value_at<'a>(dict: &'a YamlMap, path: &[String]) -> (r: Option<&'a YamlValue>)
    ensures
        match r {
            Some(v) => value_at_path(dict@, strings_view(path@)) == Some(v@),
            None => value_at_path(dict@, strings_view(path@)) == None::<YamlView>,
        },
{
    assert(path@.skip(0) =~= path@);
    value_at_from(dict, path, 0)
}

fn set_value_from(dict: &mut YamlMap, path: &[String], start: usize, value: YamlValue)
    requires
        start <= path@.len(),
    ensures
        final(dict)@ == set_at_path(old(dict)@, strings_view(path@.skip(start as int)), value@),
    decreases path@.len() - start,
{
    let ghost p = strings_view(path@.skip(start as int));
    if start == path.len() {
        return;
    }
    assert(p[0] == path@[start as int]@);
    assert(p.drop_first() =~= strings_view(path@.skip(start + 1)));
    if start + 1 == path.len() {
        dict.insert(path[start].clone(), value);
        return;
    }
    let key = path[start].clone();
    let mut nested = match dict.get(&key) {
        Some(v) => match v.as_mapping() {
            Some(n) => n.deep_copy(),
            None => YamlMap::new(),
        },
        None => YamlMap::new(),
    };
    assert(nested@ == nested_or_empty(dict@, p[0]));
    set_value_from(&mut nested, path, start + 1, value);
    dict.insert(key, YamlValue::Mapping(nested));
}

pub fn set_value(dict: &mut YamlMap, path: &[String], value: YamlValue)
    ensures
        final(dict)@ == set_at_path(old(dict)@, strings_view(path@), value@),
{
    assert(path@.skip(0) =~= path@);
    set_value_from(dict, path, 0, value)
}

fn remove_value_from(dict: &mut YamlMap, path: &[String], start: usize)
    requires
        start <= path@.len(),
    ensures
        final(dict)@ == remove_at_path(old(dict)@, strings_view(path@.skip(start as int))),
    decreases path@.len() - start,
{
    let ghost p = strings_view(path@.skip(start as int));
    if start == path.len() {
        return;
    }
    assert(p[0] == path@[start as int]@);
    assert(p.drop_first() =~= strings_view(path@.skip(start + 1)));
    if start + 1 == path.len() {
        dict.remove(&path[start]);
        return;
    }
    let key = path[start].clone();
    let nested_opt = match dict.get(&key) {
        Some(YamlValue::Mapping(nested)) => Some(nested.deep_copy()),
        _ => None,
    };
    if let Some(mut new_nested) = nested_opt {
        remove_value_from(&mut new_nested, path, start + 1);
        if new_nested.is_empty() {
            dict.remove(&key);
        } else {
            dict.insert(key, YamlValue::Mapping(new_nested));
        }
    }
}

pub fn remove_value(dict: &mut YamlMap, path: &[String])
    ensures
        final(dict)@ == remove_at_path(old(dict)@, strings_view(path@)),
{
    assert(path@.skip(0) =~= path@);
    remove_value_from(dict, path, 0)
}

// ---------------------------------------------------------------------------
// Expanding slash keys
// ---------------------------------------------------------------------------

pub open spec fn delete_key() -> Seq<char> {
    "__delete__"@
}

pub open spec fn append_key() -> Seq<char> {
    "__append__"@
}

/// Keys that a patch uses for deletions and appends rather than for values.
pub open spec fn is_directive(k: Seq<char>) -> bool {
    k == delete_key() || k == append_key()
}

/// A patch value once expanded: a mapping (seen through tags) is expanded,
/// anything else is `whole`, unchanged.
pub open spec fn expand_node(v: YamlView, whole: YamlView) -> YamlView
    decreases v, 0nat,
{
    match v {
        YamlView::Mapping(m) => YamlView::Mapping(expanded_map(m)),
        YamlView::Tagged(_, b) => expand_node(*b, whole),
        _ => whole,
    }
}

/// The first `n` entries of a patch stored along their split keys.
pub open spec fn expand_prefix(m: Entries, n: nat) -> Entries
    decreases m, n,
{
    if n == 0 || n > m.len() {
        Seq::empty()
    } else {
        let acc = expand_prefix(m, (n - 1) as nat);
        let e = m[n - 1];
        if is_directive(e.0) {
            acc
        } else {
            set_at_path(acc, path_segments(e.0), expand_node(e.1, e.1))
        }
    }
}

/// A patch with every `a/b` key turned into nested mappings; the directive
/// entries follow, unexpanded.
pub open spec fn expanded_map(m: Entries) -> Entries
    decreases m, m.len() + 1,
{
    let r = expand_prefix(m, m.len());
    let r2 = match map_get(m, delete_key()) {
        Some(d) => map_insert(r, delete_key(), d),
        None => r,
    };
    match map_get(m, append_key()) {
        Some(a) => map_insert(r2, append_key(), a),
        None => r2,
    }
}

pub proof fn lemma_expand_node(v: YamlView, whole: YamlView)
    ensures
        expand_node(v, whole) == (match mapping_of(v) {
            Some(m) => YamlView::Mapping(expanded_map(m)),
            None => whole,
        }),
    decreases v,
{
    if let YamlView::Tagged(_, b) = v {
        lemma_expand_node(*b, whole);
    }
}

pub proof fn lemma_mapping_of_decreases(v: YamlView)
    ensures
        mapping_of(v) matches Some(m) ==> decreases_to!(v => m),
    decreases v,
{
    if let YamlView::Tagged(_, b) = v {
        lemma_mapping_of_decreases(*b);
    }
}

pub fn directive_delete() -> (s: String)
    ensures
        s@ == delete_key(),
{
    "__delete__".to_string()
}

pub fn directive_append() -> (s: String)
    ensures
        s@ == append_key(),
{
    "__append__".to_string()
}

pub fn expanded_patch(patch: &YamlMap) -> (result: YamlMap)
    ensures
        result@ == expanded_map(patch@),
    decreases patch@,
{
    let del = directive_delete();
    let app = directive_append();
    let mut result = YamlMap::new();
    let mut i: usize = 0;
    let n = patch.len();
    while i < n
        invariant
            n == patch@.len(),
            i <= n,
            del@ == delete_key(),
            app@ == append_key(),
            result@ == expand_prefix(patch@, i as nat),
        decreases n - i,
    {
        let key = patch.key_at(i);
        if *key == del || *key == app {
            i = i + 1;
            continue;
        }
        let value = patch.value_at_index(i);
        proof {
            lemma_expand_node(value@, value@);
            lemma_mapping_of_decreases(value@);
        }
        let expanded = match value.as_mapping() {
            Some(nested) => {
                assert(decreases_to!(patch@ => nested@));
                YamlValue::Mapping(expanded_patch(nested))
            },
            None => value.deep_copy(),
        };
        let parts = split_path(key.as_str());
        set_value(&mut result, parts.as_slice(), expanded);
        i = i + 1;
    }
    match patch.get(&del) {
        Some(d) => {
            let dc = d.deep_copy();
            result.insert(del, dc);
        },
        None => {},
    }
    match patch.get(&app) {
        Some(a) => {
            let ac = a.deep_copy();
            result.insert(app, ac);
        },
        None => {},
    }
    result
}

// ---------------------------------------------------------------------------
// Merging a patch into a document
// ---------------------------------------------------------------------------

/// The first `n` deletion keys applied in order (keys that are not strings are ignored).
pub open spec fn delete_paths(r: Entries, keys: Seq<YamlView>, n: nat) -> Entries
    decreases n,
{
    if n == 0 || n > keys.len() {
        r
    } else {
        let r0 = delete_paths(r, keys, (n - 1) as nat);
        match str_of(keys[n - 1]) {
            Some(k) => remove_at_path(r0, path_segments(k)),
            None => r0,
        }
    }
}

pub open spec fn apply_deletions(r: Entries, exp: Entries) -> Entries {
    match map_get(exp, delete_key()) {
        Some(d) => match sequence_of(d) {
            Some(keys) => delete_paths(r, keys, keys.len()),
            None => r,
        },
        None => r,
    }
}

/// What an `__append__` entry adds: its items, or the value itself.
pub open spec fn appended_items(v: YamlView) -> Seq<YamlView> {
    match sequence_of(v) {
        Some(s) => s,
        None => seq![v],
    }
}

/// The list at `k` extended by the items of `v` (a list that was not there, or
/// was no list, is replaced).
pub open spec fn append_at(r: Entries, k: Seq<char>, v: YamlView) -> Entries {
    let path = path_segments(k);
    let items = appended_items(v);
    match value_at_path(r, path) {
        Some(existing) => match sequence_of(existing) {
            Some(old) => set_at_path(r, path, YamlView::Sequence(old + items)),
            None => set_at_path(r, path, YamlView::Sequence(items)),
        },
        None => set_at_path(r, path, YamlView::Sequence(items)),
    }
}

pub open spec fn append_entries(r: Entries, am: Entries, n: nat) -> Entries
    decreases n,
{
    if n == 0 || n > am.len() {
        r
    } else {
        append_at(append_entries(r, am, (n - 1) as nat), am[n - 1].0, am[n - 1].1)
    }
}

pub open spec fn apply_appends(r: Entries, exp: Entries) -> Entries {
    match map_get(exp, append_key()) {
        Some(a) => match mapping_of(a) {
            Some(am) => append_entries(r, am, am.len()),
            None => r,
        },
        None => r,
    }
}

/// The first `n` entries of an expanded patch merged in, in order.
pub open spec fn merge_entries(r: Entries, exp: Entries, n: nat, bound: nat) -> Entries
    decreases bound, 1nat, n,
{
    if n == 0 || n > exp.len() {
        r
    } else {
        let r0 = merge_entries(r, exp, (n - 1) as nat, bound);
        let e = exp[n - 1];
        if is_directive(e.0) {
            r0
        } else if reach(e.1) < bound {
            merge_value_at(e.1, r0, seq![e.0])
        } else {
            r0
        }
    }
}

/// `dict` with `v` merged in at `path`: a mapping meets a mapping by merging,
/// anything else replaces what was there.
pub open spec fn merge_value_at(v: YamlView, dict: Entries, path: Seq<Seq<char>>) -> Entries
    decreases reach(v), 3nat, path.len(),
{
    if path.len() == 0 {
        dict
    } else if path.len() > 1 {
        map_insert(
            dict,
            path[0],
            YamlView::Mapping(merge_value_at(v, nested_or_empty(dict, path[0]), path.drop_first())),
        )
    } else {
        match mapping_of(v) {
            Some(pd) => match map_get(dict, path[0]) {
                Some(YamlView::Mapping(bd)) => if reach_map(pd) <= reach(v) {
                    map_insert(dict, path[0], YamlView::Mapping(merged(bd, pd)))
                } else {
                    dict
                },
                _ => map_insert(dict, path[0], v),
            },
            None => map_insert(dict, path[0], v),
        }
    }
}

/// A document with a Rime patch applied: the patch is expanded, its
/// `__delete__` keys are removed, its `__append__` lists are extended, then
/// each of its entries is merged in, mappings recursively.
pub open spec fn merged(base: Entries, patch: Entries) -> Entries
    decreases reach_map(patch), 2nat, 0nat,
{
    let exp = expanded_map(patch);
    let r1 = apply_deletions(base, exp);
    let r2 = apply_appends(r1, exp);
    merge_entries(r2, exp, exp.len(), reach_map(patch))
}

pub proof fn lemma_reach_of_mapping(v: YamlView)
    ensures
        mapping_of(v) matches Some(m) ==> reach_map(m) == reach(v),
    decreases v,
{
    if let YamlView::Tagged(_, b) = v {
        lemma_reach_of_mapping(*b);
    }
}

pub fn merge(base: &YamlMap, patch: &YamlMap) -> (result: YamlMap)
    ensures
        result@ == merged(base@, patch@),
    decreases reach_map(patch@), 2nat, 0nat,
{
    let mut result = base.deep_copy();
    let expanded = expanded_patch(patch);
    let del = directive_delete();
    let app = directive_append();
    let ghost exp = expanded@;

    // deletions
    match expanded.get(&del) {
        Some(deletions) => match deletions.as_sequence() {
            Some(keys) => {
                proof {
                    lemma_view_items(keys@);
                }
                let ghost kv = view_items(keys@);
                let ghost start = result@;
                let mut j: usize = 0;
                while j < keys.len()
                    invariant
                        j <= keys@.len(),
                        kv == view_items(keys@),
                        kv.len() == keys@.len(),
                        forall|t: int| 0 <= t < keys@.len() ==> #[trigger] kv[t] == keys@[t]@,
                        result@ == delete_paths(start, kv, j as nat),
                    decreases keys@.len() - j,
                {
                    match keys[j].as_str() {
                        Some(ks) => {
                            let path = split_path(ks.as_str());
                            remove_value(&mut result, path.as_slice());
                        },
                        None => {},
                    }
                    j = j + 1;
                }
            },
            None => {},
        },
        None => {},
    }
    assert(result@ == apply_deletions(base@, exp));

    // appends
    let ghost r1 = result@;
    match expanded.get(&app) {
        Some(appends) => match appends.as_mapping() {
            Some(am) => {
                let mut j: usize = 0;
                let n = am.len();
                while j < n
                    invariant
                        n == am@.len(),
                        j <= n,
                        result@ == append_entries(r1, am@, j as nat),
                    decreases n - j,
                {
                    let k = am.key_at(j);
                    let v = am.value_at_index(j);
                    let path = split_path(k.as_str());
                    let mut new_items: Vec<YamlValue> = match v.as_sequence() {
                        Some(items) => copy_items(items),
                        None => {
                            let mut one: Vec<YamlValue> = Vec::new();
                            one.push(v.deep_copy());
                            proof {
                                lemma_view_items(one@);
                                assert(view_items(one@) =~= seq![v@]);
                            }
                            one
                        },
                    };
                    assert(view_items(new_items@) == appended_items(v@));
                    let new_value = match value_at(&result, path.as_slice()) {
                        Some(existing) => match existing.as_sequence() {
                            Some(old_items) => {
                                let mut all = copy_items(old_items);
                                let ghost a = all@;
                                let ghost b = new_items@;
                                all.append(&mut new_items);
                                proof {
                                    lemma_view_items(a);
                                    lemma_view_items(b);
                                    lemma_view_items(all@);
                                    assert(view_items(all@) =~= view_items(a) + view_items(b));
                                }
                                YamlValue::Sequence(all)
                            },
                            None => YamlValue::Sequence(new_items),
                        },
                        None => YamlValue::Sequence(new_items),
                    };
                    set_value(&mut result, path.as_slice(), new_value);
                    j = j + 1;
                }
            },
            None => {},
        },
        None => {},
    }
    assert(result@ == apply_appends(r1, exp));

    // entries
    let ghost r2 = result@;
    let ghost bound = reach_map(patch@);
    proof {
        lemma_expanded_values_reach(patch@);
    }
    let mut i: usize = 0;
    let n = expanded.len();
    while i < n
        invariant
            n == exp.len(),
            exp == expanded@,
            exp == expanded_map(patch@),
            bound == reach_map(patch@),
            i <= n,
            del@ == delete_key(),
            app@ == append_key(),
            forall|t: int| 0 <= t < exp.len() ==> reach((#[trigger] exp[t]).1) < bound,
            result@ == merge_entries(r2, exp, i as nat, bound),
        decreases n - i,
    {
        let key = expanded.key_at(i);
        if *key == del || *key == app {
            i = i + 1;
            continue;
        }
        let value = expanded.value_at_index(i);
        assert(reach(value@) < bound);
        let mut path: Vec<String> = Vec::new();
        path.push(key.clone());
        assert(strings_view(path@.skip(0)) =~= seq![exp[i as int].0]);
        merge_value_from(value, &mut result, path.as_slice(), 0);
        i = i + 1;
    }
    result
}

fn merge_value_from(value: &YamlValue, dict: &mut YamlMap, path: &[String], start: usize)
    requires
        start <= path@.len(),
    ensures
        final(dict)@ == merge_value_at(value@, old(dict)@, strings_view(path@.skip(start as int))),
    decreases reach(value@), 3nat, path@.len() - start,
{
    let ghost p = strings_view(path@.skip(start as int));
    if start == path.len() {
        return;
    }
    assert(p[0] == path@[start as int]@);
    assert(p.drop_first() =~= strings_view(path@.skip(start + 1)));
    let key = path[start].clone();
    if start + 1 < path.len() {
        let mut nested = match dict.get(&key) {
            Some(v) => match v.as_mapping() {
                Some(n) => n.deep_copy(),
                None => YamlMap::new(),
            },
            None => YamlMap::new(),
        };
        merge_value_from(value, &mut nested, path, start + 1);
        dict.insert(key, YamlValue::Mapping(nested));
        return;
    }
    proof {
        lemma_reach_of_mapping(value@);
    }
    match value.as_mapping() {
        Some(patch_dict) => {
            let merged_opt = match dict.get(&key) {
                Some(YamlValue::Mapping(base_dict)) => Some(merge(base_dict, patch_dict)),
                _ => None,
            };
            match merged_opt {
                Some(m) => {
                    dict.insert(key, YamlValue::Mapping(m));
                    return;
                },
                None => {},
            }
        },
        None => {},
    }
    dict.insert(key, value.deep_copy());
}

// ---------------------------------------------------------------------------
// Laws
// ---------------------------------------------------------------------------

/// Every component of a split key is non-empty and holds no slash.
pub proof fn split_path_components_are_clean(key: Seq<char>)
    ensures
        forall|i: int|
            0 <= i < path_segments(key).len() ==> (#[trigger] path_segments(key)[i]).len() > 0
                && slash_free(path_segments(key)[i]),
{
    lemma_segments_clean(key, Seq::empty());
}

/// A value stored at a non-empty path is what is read back at that path.
pub proof fn set_then_get(m: Entries, path: Seq<Seq<char>>, v: YamlView)
    requires
        path.len() >= 1,
    ensures
        value_at_path(set_at_path(m, path, v), path) == Some(v),
    decreases path.len(),
{
    lemma_insert_get(m, path[0], v);
    if path.len() > 1 {
        let inner = set_at_path(nested_or_empty(m, path[0]), path.drop_first(), v);
        lemma_insert_get(m, path[0], YamlView::Mapping(inner));
        set_then_get(nested_or_empty(m, path[0]), path.drop_first(), v);
    }
}

/// Storing at a path leaves every other top-level key as it was.
pub proof fn set_keeps_other_keys(m: Entries, path: Seq<Seq<char>>, v: YamlView, k: Seq<char>)
    requires
        path.len() >= 1,
        keys_unique(m),
        k != path[0],
    ensures
        map_get(set_at_path(m, path, v), k) == map_get(m, k),
        keys_unique(set_at_path(m, path, v)),
{
    if path.len() == 1 {
        lemma_insert_unique(m, path[0], v);
    } else {
        let inner = set_at_path(nested_or_empty(m, path[0]), path.drop_first(), v);
        lemma_insert_unique(m, path[0], YamlView::Mapping(inner));
    }
}

/// The mappings along `path` have no repeated keys.
pub open spec fn unique_along(m: Entries, path: Seq<Seq<char>>) -> bool
    decreases path.len(),
{
    &&& keys_unique(m)
    &&& (path.len() > 1 ==> match map_get(m, path[0]) {
        Some(YamlView::Mapping(n)) => unique_along(n, path.drop_first()),
        _ => true,
    })
}

/// After a removal nothing is found at the removed path.
pub proof fn remove_then_get(m: Entries, path: Seq<Seq<char>>)
    requires
        path.len() >= 1,
        unique_along(m, path),
    ensures
        value_at_path(remove_at_path(m, path), path) == None::<YamlView>,
    decreases path.len(),
{
    lemma_remove_unique(m, path[0]);
    if path.len() > 1 {
        if let Some(YamlView::Mapping(n)) = map_get(m, path[0]) {
            let nn = remove_at_path(n, path.drop_first());
            if nn.len() > 0 {
                lemma_insert_get(m, path[0], YamlView::Mapping(nn));
                remove_then_get(n, path.drop_first());
            }
        }
    }
}

/// An empty patch leaves the document unchanged.
pub proof fn merge_empty_patch(base: Entries)
    ensures
        merged(base, Seq::empty()) == base,
{
    let e = Seq::<(Seq<char>, YamlView)>::empty();
    assert(expanded_map(e) =~= e);
}

/// A patch entry with a plain key and a value that is no mapping sets that key.
pub proof fn merge_plain_entry(base: Entries, k: Seq<char>, v: YamlView)
    requires
        k.len() > 0,
        slash_free(k),
        !is_directive(k),
        mapping_of(v) is None,
    ensures
        merged(base, seq![(k, v)]) == map_insert(base, k, v),
{
    let patch = seq![(k, v)];
    lemma_path_segments_of_component(k);
    lemma_expand_node(v, v);
    lemma_find_key_one(k, v, delete_key());
    lemma_find_key_one(k, v, append_key());
    let r = expand_prefix(patch, 1);
    assert(expand_prefix(patch, 0) == Seq::<(Seq<char>, YamlView)>::empty());
    assert(patch[0] == (k, v));
    assert(expand_node(v, v) == v);
    assert(r == set_at_path(Seq::<(Seq<char>, YamlView)>::empty(), seq![k], v));
    assert(r =~= seq![(k, v)]);
    assert(expanded_map(patch) == r);
    crate::rime::reach::lemma_reach_lower(patch, 1);
    assert(reach(v) < reach_map(patch)) by {
        assert(crate::rime::reach::entry_weight(patch[0]) <= reach_map(patch));
    }
    assert(r[0] == (k, v));
    assert(merge_entries(base, r, 0, reach_map(patch)) == base);
    assert(merge_entries(base, r, 1, reach_map(patch)) == merge_value_at(v, base, seq![k]));
    assert(seq![k].drop_first().len() == 0);
}

spec fn find_key_is_zero(m: Entries, k: Seq<char>) -> bool {
    crate::rime::yaml::find_key(m, k) == 0
}

proof fn lemma_find_key_one(k: Seq<char>, v: YamlView, other: Seq<char>)
    requires
        other != k,
    ensures
        map_get(seq![(k, v)], other) == None::<YamlView>,
{
    crate::rime::yaml::lemma_find_key(seq![(k, v)], other);
}

/// A patch that deletes a key leaves nothing at that key's path.
pub proof fn merge_deletes(base: Entries, k: Seq<char>)
    requires
        path_segments(k).len() >= 1,
        unique_along(base, path_segments(k)),
    ensures
        value_at_path(
            merged(base, seq![(delete_key(), YamlView::Sequence(seq![YamlView::Str(k)]))]),
            path_segments(k),
        ) == None::<YamlView>,
{
    let d = YamlView::Sequence(seq![YamlView::Str(k)]);
    let patch = seq![(delete_key(), d)];
    assert(delete_key() != append_key()) by {
        reveal_strlit("__delete__");
        reveal_strlit("__append__");
        assert(delete_key()[2] != append_key()[2]);
    }
    crate::rime::yaml::lemma_find_key(patch, delete_key());
    lemma_find_key_one(delete_key(), d, append_key());
    let r = expand_prefix(patch, 1);
    assert(r =~= Seq::<(Seq<char>, YamlView)>::empty());
    let exp = expanded_map(patch);
    assert(exp =~= seq![(delete_key(), d)]);
    crate::rime::yaml::lemma_find_key(exp, delete_key());
    crate::rime::yaml::lemma_find_key(exp, append_key());
    assert(find_key_is_zero(exp, delete_key()));
    assert(map_get(exp, delete_key()) == Some(d));
    assert(sequence_of(d) == Some(seq![YamlView::Str(k)]));
    let keys = seq![YamlView::Str(k)];
    assert(str_of(keys[0]) == Some(k));
    assert(delete_paths(base, keys, 0) == base);
    assert(delete_paths(base, keys, 1) == remove_at_path(base, path_segments(k)));
    assert(apply_deletions(base, exp) == remove_at_path(base, path_segments(k)));
    assert(apply_appends(apply_deletions(base, exp), exp) == apply_deletions(base, exp));
    let b = reach_map(patch);
    assert(merge_entries(apply_deletions(base, exp), exp, 1, b) == apply_deletions(base, exp));
    remove_then_get(base, path_segments(k));
}


/// A patch that appends items to a key's list extends the list the base
/// holds at that key's path: the old items first, in order, then the new
/// ones in order.
pub proof fn merge_appends(base: Entries, k: Seq<char>, items: Seq<YamlView>, old: Seq<YamlView>)
    requires
        path_segments(k).len() >= 1,
        value_at_path(base, path_segments(k)) matches Some(v) && sequence_of(v) == Some(old),
    ensures
        value_at_path(
            merged(base, seq![(append_key(), YamlView::Mapping(seq![(k, YamlView::Sequence(items))]))]),
            path_segments(k),
        ) == Some(YamlView::Sequence(old + items)),
{
    let am = seq![(k, YamlView::Sequence(items))];
    let a = YamlView::Mapping(am);
    let patch = seq![(append_key(), a)];
    assert(delete_key() != append_key()) by {
        reveal_strlit("__delete__");
        reveal_strlit("__append__");
        assert(delete_key()[2] != append_key()[2]);
    }
    crate::rime::yaml::lemma_find_key(patch, append_key());
    lemma_find_key_one(append_key(), a, delete_key());
    let r = expand_prefix(patch, 1);
    assert(r =~= Seq::<(Seq<char>, YamlView)>::empty());
    let exp = expanded_map(patch);
    assert(find_key_is_zero(patch, append_key()));
    assert(map_get(patch, append_key()) == Some(a));
    crate::rime::yaml::lemma_find_key(r, append_key());
    assert(exp =~= seq![(append_key(), a)]);
    crate::rime::yaml::lemma_find_key(exp, delete_key());
    crate::rime::yaml::lemma_find_key(exp, append_key());
    assert(find_key_is_zero(exp, append_key()));
    assert(map_get(exp, append_key()) == Some(a));
    assert(apply_deletions(base, exp) == base);
    assert(mapping_of(a) == Some(am));
    assert(append_entries(base, am, 0) == base);
    assert(appended_items(YamlView::Sequence(items)) == items);
    let path = path_segments(k);
    let r2 = set_at_path(base, path, YamlView::Sequence(old + items));
    assert(append_at(base, k, YamlView::Sequence(items)) == r2);
    assert(append_entries(base, am, 1) == r2);
    assert(apply_appends(base, exp) == r2);
    let b = reach_map(patch);
    assert(merge_entries(r2, exp, 1, b) == r2);
    set_then_get(base, path, YamlView::Sequence(old + items));
}

} // verus!
