use vstd::prelude::*;

use crate::rime::order::{KeyModel, SortKey, keys_view, sort_by_keys, sorted_by_keys};
use crate::rime::patch::strings_view;
use crate::rime::text::{chars_of, extension_of, file_extension, file_stem, has_prefix, has_suffix, push_all, stem_of, string_of};

verus! {

/// What writing a file came to.
#[derive(Debug, Clone, Copy, PartialEq, Eq, Structural)]
pub enum WriteResult {
    /// The file already held the content: nothing was written.
    Unchanged,
    /// The content was written.
    Written,
}

/// Whether a file must be written: not when it exists and already holds the
/// content.
pub fn write_decision(existing: Option<&str>, content: &str) -> (r: WriteResult)
    ensures
        r == (match existing {
            Some(e) => if e@ == content@ {
                WriteResult::Unchanged
            } else {
                WriteResult::Written
            },
            None => WriteResult::Written,
        }),
{
    match existing {
        Some(e) => if e.to_string() == content.to_string() {
            WriteResult::Unchanged
        } else {
            WriteResult::Written
        },
        None => WriteResult::Written,
    }
}

/// How many timestamped copies of a file are kept.
pub const MAX_TIMESTAMPED_BACKUPS: usize = 10;

/// The name of the timestamped copy of a file: `stem.timestamp.ext` (no
/// `.ext` when the file has no extension).
pub open spec fn timestamped_name_of(name: Seq<char>, ts: Seq<char>) -> Seq<char> {
    stem_of(name) + "."@ + ts + match extension_of(name) {
        Some(e) => "."@ + e,
        None => Seq::empty(),
    }
}

pub fn timestamped_backup_name(name: &str, ts: &str) -> (r: String)
    ensures
        r@ == timestamped_name_of(name@, ts@),
{
    proof {
        reveal_strlit(".");
    }
    let mut v = chars_of(file_stem(name).as_str());
    v.push('.');
    push_all(&mut v, chars_of(ts).as_slice());
    match file_extension(name) {
        Some(e) => {
            v.push('.');
            push_all(&mut v, chars_of(e.as_str()).as_slice());
        },
        None => {},
    }
    assert(v@ =~= timestamped_name_of(name@, ts@));
    string_of(v.as_slice())
}

/// The middle of a name that starts with `stem.` and (for a non-empty `ext`)
/// ends with `.ext`, when the two ends do not overlap.
pub open spec fn middle_of(name: Seq<char>, stem: Seq<char>, ext: Seq<char>) -> Seq<char> {
    if ext.len() == 0 {
        name.skip(stem.len() + 1int)
    } else {
        name.subrange(stem.len() + 1int, name.len() - ext.len() - 1)
    }
}

/// The shape of a name that is checked for a timestamp: it starts with
/// `stem.`, ends with `.ext` when `ext` is not empty, and is longer than
/// `stem.`.
pub open spec fn backup_shaped(name: Seq<char>, stem: Seq<char>, ext: Seq<char>) -> bool {
    &&& has_prefix(name, stem + "."@)
    &&& (ext.len() == 0 || has_suffix(name, "."@ + ext))
    &&& name.len() > stem.len() + 1
}

/// The ends overlap: the name is `stem.ext` itself or shorter, so no middle
/// can be cut out of it.
pub open spec fn ends_overlap(name: Seq<char>, stem: Seq<char>, ext: Seq<char>) -> bool {
    ext.len() > 0 && name.len() - ext.len() - 1 < stem.len() + 1
}

/// A timestamped copy of the file `stem.ext`: the shape above, with a middle
/// that starts with an ASCII digit and holds a dash.
pub open spec fn is_timestamped_copy(name: Seq<char>, stem: Seq<char>, ext: Seq<char>) -> bool {
    &&& backup_shaped(name, stem, ext)
    &&& stamp_like(middle_of(name, stem, ext))
}

/// Starts with an ASCII digit and holds a dash.
pub open spec fn stamp_like(m: Seq<char>) -> bool {
    m.len() > 0 && '0' <= m[0] <= '9' && exists|i: int| 0 <= i < m.len() && #[trigger] m[i] == '-'
}

fn concat(a: &str, b: &str) -> (r: String)
    ensures
        r@ == a@ + b@,
{
    let mut v = chars_of(a);
    push_all(&mut v, chars_of(b).as_slice());
    string_of(v.as_slice())
}

/// Whether a name is shaped like a copy of `stem.ext`; such a name can be
/// checked by `is_timestamped_backup` unless its ends overlap.
pub fn backup_shaped_name(name: &str, stem: &str, ext: &str) -> (r: bool)
    ensures
        r == backup_shaped(name@, stem@, ext@),
{
    proof {
        reveal_strlit(".");
    }
    let prefix = concat(stem, ".");
    let suffix = concat(".", ext);
    let n = chars_of(name).len();
    let s = chars_of(stem).len();
    crate::rime::text::starts_with(name, prefix.as_str()) && (ext.is_empty()
        || crate::rime::text::ends_with(name, suffix.as_str())) && n > s + 1
}

/// Whether a name cannot be checked: shaped like a copy, with overlapping ends.
pub fn ends_overlap_name(name: &str, stem: &str, ext: &str) -> (r: bool)
    ensures
        r == ends_overlap(name@, stem@, ext@),
{
    let n = chars_of(name).len();
    let s = chars_of(stem).len();
    let e = chars_of(ext).len();
    e > 0 && (n <= e || n - e - 1 <= s)
}

/// Whether a name in the directory of `stem.ext` is one of its timestamped
/// copies. Cutting the middle out of a name whose ends overlap is refused.
pub fn is_timestamped_backup(name: &str, stem: &str, ext: &str) -> (r: bool)
    requires
        backup_shaped(name@, stem@, ext@) ==> !ends_overlap(name@, stem@, ext@),
    ensures
        r == is_timestamped_copy(name@, stem@, ext@),
{
    if !backup_shaped_name(name, stem, ext) {
        return false;
    }
    let cs = chars_of(name);
    let s = chars_of(stem).len();
    let e = chars_of(ext).len();
    let end = if e == 0 {
        cs.len()
    } else {
        cs.len() - e - 1
    };
    let start = s + 1;
    assert(start <= end);
    let ghost m = middle_of(name@, stem@, ext@);
    assert(m =~= cs@.subrange(start as int, end as int));
    if end == start || !('0' <= cs[start] && cs[start] <= '9') {
        return false;
    }
    let mut i: usize = start;
    while i < end
        invariant
            start <= i <= end <= cs@.len(),
            m == cs@.subrange(start as int, end as int),
            m == middle_of(name@, stem@, ext@),
            m.len() > 0 && '0' <= m[0] <= '9',
            backup_shaped(name@, stem@, ext@),
            forall|j: int| 0 <= j < i - start ==> m[j] != '-',
        decreases end - i,
    {
        if cs[i] == '-' {
            assert(m[i - start] == '-');
            return true;
        }
        i = i + 1;
    }
    false
}

/// The extension a file's copies are matched on: its extension, or nothing.
pub open spec fn ext_or_empty(name: Seq<char>) -> Seq<char> {
    match extension_of(name) {
        Some(e) => e,
        None => Seq::empty(),
    }
}

/// Every timestamped copy made of a file is one that the cleanup of that file
/// counts: stamped with a stamp that starts with a digit and holds a dash, the
/// copy's name is recognized as a timestamped copy of the file, and its ends
/// do not overlap.
pub proof fn timestamped_copies_are_counted(name: Seq<char>, ts: Seq<char>)
    requires
        stamp_like(ts),
    ensures
        is_timestamped_copy(timestamped_name_of(name, ts), stem_of(name), ext_or_empty(name)),
        !ends_overlap(timestamped_name_of(name, ts), stem_of(name), ext_or_empty(name)),
{
    reveal_strlit(".");
    let st = stem_of(name);
    let c = timestamped_name_of(name, ts);
    let dot: Seq<char> = "."@;
    assert(dot.len() == 1 && dot[0] == '.');
    assert(c.take(st.len() + 1int) =~= st + dot);
    match extension_of(name) {
        Some(e) => {
            assert(c == st + dot + ts + (dot + e));
            if e.len() == 0 {
                assert(middle_of(c, st, ext_or_empty(name)) =~= ts + dot);
                let i = choose|i: int| 0 <= i < ts.len() && #[trigger] ts[i] == '-';
                assert((ts + dot)[i] == '-');
            } else {
                assert(c.skip(c.len() - (dot + e).len()) =~= dot + e);
                assert(middle_of(c, st, ext_or_empty(name)) =~= ts);
            }
        },
        None => {
            assert(c =~= st + dot + ts);
            assert(middle_of(c, st, ext_or_empty(name)) =~= ts);
        },
    }
}

/// The names beyond the newest `keep`, by name descending (the names carry
/// their timestamps, so this is oldest last).
pub open spec fn stale_names_of(names: Seq<String>, keep: nat) -> Seq<Seq<char>> {
    let sorted = sorted_by_keys(strings_view(names), strings_view(names).map_values(|n: Seq<char>| KeyModel::Text(n)), true);
    if keep < sorted.len() {
        sorted.skip(keep as int)
    } else {
        Seq::empty()
    }
}

/// The backups to remove: all but the `keep` newest.
pub fn stale_backups(names: Vec<String>, keep: usize) -> (r: Vec<String>)
    ensures
        strings_view(r@) == stale_names_of(names@, keep as nat),
{
    let mut keys: Vec<SortKey> = Vec::new();
    let mut i: usize = 0;
    while i < names.len()
        invariant
            i <= names@.len(),
            keys_view(keys@) == strings_view(names@).take(i as int).map_values(|n: Seq<char>| KeyModel::Text(n)),
        decreases names@.len() - i,
    {
        let ghost before = keys@;
        keys.push(SortKey::Text(names[i].clone()));
        assert(keys_view(keys@) =~= keys_view(before).push(KeyModel::Text(names@[i as int]@)));
        i = i + 1;
        assert(strings_view(names@).take(i as int).drop_last() =~= strings_view(names@).take(i - 1));
        assert(keys_view(keys@) =~= strings_view(names@).take(i as int).map_values(|n: Seq<char>| KeyModel::Text(n)));
    }
    assert(strings_view(names@).take(i as int) =~= strings_view(names@));
    let ghost unsorted = names@;
    let ghost kv = keys_view(keys@);
    let sorted = sort_by_keys(names, keys, true);
    proof {
        crate::rime::order::lemma_sorted_map(unsorted, kv, true, |x: String| x@);
    }
    let mut rest = sorted;
    let ghost sv = rest@;
    if keep >= rest.len() {
        let r: Vec<String> = Vec::new();
        assert(strings_view(r@) =~= Seq::<Seq<char>>::empty());
        return r;
    }
    let mut k: usize = 0;
    while k < keep
        invariant
            k <= keep < sv.len(),
            rest@ == sv.skip(k as int),
        decreases keep - k,
    {
        rest.remove(0);
        k = k + 1;
        assert(rest@ =~= sv.skip(k as int));
    }
    assert(strings_view(rest@) =~= strings_view(sv).skip(keep as int));
    rest
}

} // verus!
