use vstd::prelude::*;

use crate::rime::config::{contains_char, contains_dot_dot, doc_get, get_in_document, has_char, has_dot_dot};
use crate::rime::grammar::int_text;
use crate::rime::order::{KeyModel, SortKey, keys_view, sort_by_keys, sorted_by_keys};
use crate::rime::patch::strings_view;
use crate::rime::text::{
    chars_of, contains_text, ends_with, has_prefix, has_suffix, is_white, join_chars, joined, lines, lines_of,
    lowercase, parse_i64, parse_int, push_all, replace_all, replaced, split_chars, split_on, starts_with, string_of,
    text_contains, to_lowercase, trim_chars, trim_end, trim_end_matches, trimmed, vecs_view, without_suffixes, words,
    words_of,
};
use crate::rime::yaml::{YamlValue, YamlView, str_of};

verus! {

/// An entry of a user dictionary snapshot.
pub struct DictEntry {
    pub word: String,
    pub code: String,
    pub frequency: i64,
    pub commit_count: i64,
    pub last_used: String,
}

pub struct EntryModel {
    pub word: Seq<char>,
    pub code: Seq<char>,
    pub frequency: i64,
    pub commit_count: i64,
    pub last_used: Seq<char>,
}

impl View for DictEntry {
    type V = EntryModel;

    open spec fn view(&self) -> EntryModel {
        EntryModel {
            word: self.word@,
            code: self.code@,
            frequency: self.frequency,
            commit_count: self.commit_count,
            last_used: self.last_used@,
        }
    }
}

pub open spec fn entries_view(v: Seq<DictEntry>) -> Seq<EntryModel> {
    v.map_values(|e: DictEntry| e@)
}

/// A page of dictionary entries, with the count and the total frequency of
/// all entries that matched.
pub struct DictEntriesResult {
    pub entries: Vec<DictEntry>,
    pub total: usize,
    pub page: usize,
    pub per_page: usize,
    pub total_frequency: i64,
}

/// A user dictionary found in the user directory.
pub struct UserDictInfo {
    pub dict_id: String,
    pub display_name: String,
    pub schema_ids: Vec<String>,
    pub entry_count: i64,
    pub file_size: i64,
    pub last_modified: String,
}

/// A snapshot file of a user dictionary.
pub struct SnapshotInfo {
    pub file_name: String,
    pub created_at: String,
    pub size: i64,
    pub snapshot_type: String,
}

/// An entry named by its word and code.
pub struct DictEntryKey {
    pub word: String,
    pub code: String,
}

/// An entry to add.
pub struct NewDictEntry {
    pub word: String,
    pub code: String,
    pub frequency: i64,
}

// ---------------------------------------------------------------------------
// Snapshot lines
// ---------------------------------------------------------------------------

/// A line that may hold an entry: not a comment and not blank.
pub open spec fn is_entry_line(l: Seq<char>) -> bool {
    !(l.len() > 0 && l[0] == '#') && trimmed(l).len() > 0
}

/// The commit count of the last `c=N` field that parses, in Rime's
/// `c=N d=X t=Y` column.
pub open spec fn count_field(ws: Seq<Seq<char>>) -> Option<i64>
    decreases ws.len(),
{
    if ws.len() == 0 {
        None
    } else {
        let w = ws.last();
        let here = if has_prefix(w, "c="@) {
            parse_i64(w.skip(2))
        } else {
            None
        };
        match here {
            Some(x) => Some(x),
            None => count_field(ws.drop_last()),
        }
    }
}

/// The frequency the third column gives: a plain number, else the commit
/// count, else zero.
pub open spec fn column_frequency(third: Seq<char>) -> i64 {
    match parse_i64(third) {
        Some(f) => f,
        None => match count_field(words_of(third)) {
            Some(c) => c,
            None => 0,
        },
    }
}

/// The entry a snapshot line `word<TAB>code<TAB>counts...` holds; none when
/// it has fewer than three columns or an empty word or code.
pub open spec fn entry_of_line(l: Seq<char>) -> Option<EntryModel> {
    let p = split_on(l, '\t');
    if p.len() < 3 || p[0].len() == 0 || p[1].len() == 0 {
        None
    } else {
        Some(
            EntryModel {
                word: p[0],
                code: p[1],
                frequency: column_frequency(p[2]),
                commit_count: column_frequency(p[2]),
                last_used: Seq::empty(),
            },
        )
    }
}

/// The entry of a line that holds one.
pub open spec fn line_entry(l: Seq<char>) -> Option<EntryModel> {
    if is_entry_line(l) {
        entry_of_line(l)
    } else {
        None
    }
}

/// The entries of the lines, in order.
pub open spec fn entries_in(ls: Seq<Seq<char>>) -> Seq<EntryModel>
    decreases ls.len(),
{
    if ls.len() == 0 {
        Seq::empty()
    } else {
        match line_entry(ls.last()) {
            Some(e) => entries_in(ls.drop_last()).push(e),
            None => entries_in(ls.drop_last()),
        }
    }
}

/// The entries of a snapshot text.
pub open spec fn snapshot_entries_of(content: Seq<char>) -> Seq<EntryModel> {
    entries_in(lines_of(content))
}

fn is_blank_or_comment(l: &Vec<char>) -> (r: bool)
    ensures
        r == !is_entry_line(l@),
{
    if l.len() > 0 && l[0] == '#' {
        return true;
    }
    trim_chars(l.as_slice()).len() == 0
}

fn count_in(ws: &Vec<Vec<char>>) -> (r: Option<i64>)
    ensures
        r == count_field(vecs_view(ws@)),
{
    let mut i: usize = ws.len();
    assert(vecs_view(ws@).take(i as int) =~= vecs_view(ws@));
    while i > 0
        invariant
            i <= ws@.len(),
            count_field(vecs_view(ws@)) == count_field(vecs_view(ws@).take(i as int)),
        decreases i,
    {
        let w = &ws[i - 1];
        let ghost t = vecs_view(ws@).take(i as int);
        assert(t.last() == w@);
        assert(t.drop_last() =~= vecs_view(ws@).take(i - 1));
        proof {
            reveal_strlit("c=");
        }
        if w.len() >= 2 && w[0] == 'c' && w[1] == '=' {
            assert(has_prefix(w@, "c="@)) by {
                assert(w@.take(2) =~= "c="@);
            }
            let mut rest: Vec<char> = Vec::new();
            let mut j: usize = 2;
            while j < w.len()
                invariant
                    2 <= j <= w@.len(),
                    rest@ == w@.subrange(2, j as int),
                decreases w@.len() - j,
            {
                rest.push(w[j]);
                j = j + 1;
                assert(rest@ =~= w@.subrange(2, j as int));
            }
            assert(rest@ =~= w@.skip(2));
            match parse_int(rest.as_slice()) {
                Some(x) => {
                    return Some(x);
                },
                None => {},
            }
        } else {
            assert(!has_prefix(w@, "c="@)) by {
                if w@.len() >= 2 {
                    assert(w@.take(2)[0] == w@[0]);
                    assert(w@.take(2)[1] == w@[1]);
                }
            }
        }
        i = i - 1;
    }
    assert(vecs_view(ws@).take(0) =~= Seq::<Seq<char>>::empty());
    None
}

fn frequency_of_column(third: &Vec<char>) -> (f: i64)
    ensures
        f == column_frequency(third@),
{
    match parse_int(third.as_slice()) {
        Some(f) => f,
        None => match count_in(&words(third.as_slice())) {
            Some(c) => c,
            None => 0,
        },
    }
}

fn entry_from_line(l: &Vec<char>) -> (r: Option<DictEntry>)
    ensures
        match entry_of_line(l@) {
            Some(e) => r matches Some(x) && x@ == e,
            None => r is None,
        },
{
    let p = split_chars(l.as_slice(), '\t');
    if p.len() < 3 || p[0].len() == 0 || p[1].len() == 0 {
        return None;
    }
    assert(vecs_view(p@)[0] == p@[0]@ && vecs_view(p@)[1] == p@[1]@ && vecs_view(p@)[2] == p@[2]@);
    let f = frequency_of_column(&p[2]);
    Some(
        DictEntry {
            word: string_of(p[0].as_slice()),
            code: string_of(p[1].as_slice()),
            frequency: f,
            commit_count: f,
            last_used: String::new(),
        },
    )
}

/// The entry a snapshot line holds.
pub fn parse_snapshot_line(line: &str) -> (r: Option<DictEntry>)
    ensures
        match entry_of_line(line@) {
            Some(e) => r matches Some(x) && x@ == e,
            None => r is None,
        },
{
    entry_from_line(&chars_of(line))
}

fn entry_of(l: &Vec<char>) -> (r: Option<DictEntry>)
    ensures
        match line_entry(l@) {
            Some(e) => r matches Some(x) && x@ == e,
            None => r is None,
        },
{
    if is_blank_or_comment(l) {
        None
    } else {
        entry_from_line(l)
    }
}

/// The entries of a snapshot text, in order.
pub fn snapshot_entries(content: &str) -> (r: Vec<DictEntry>)
    ensures
        entries_view(r@) == snapshot_entries_of(content@),
{
    let ls = lines(content);
    let ghost lv = vecs_view(ls@);
    let mut r: Vec<DictEntry> = Vec::new();
    let mut i: usize = 0;
    while i < ls.len()
        invariant
            i <= ls@.len(),
            lv == vecs_view(ls@),
            entries_view(r@) == entries_in(lv.take(i as int)),
        decreases ls@.len() - i,
    {
        let ghost before = r@;
        assert(lv.take(i + 1).drop_last() =~= lv.take(i as int));
        assert(lv.take(i + 1).last() == ls@[i as int]@);
        match entry_of(&ls[i]) {
            Some(e) => {
                r.push(e);
                assert(entries_view(r@) =~= entries_view(before).push(r@.last()@));
            },
            None => {},
        }
        i = i + 1;
    }
    assert(lv.take(i as int) =~= lv);
    r
}

// ---------------------------------------------------------------------------
// Browsing the entries
// ---------------------------------------------------------------------------

/// Whether an entry matches a search: its lower-cased word or code holds the
/// lower-cased query.
pub open spec fn matches_query(e: EntryModel, q: Seq<char>) -> bool {
    contains_text(lowercase(e.word), lowercase(q)) || contains_text(lowercase(e.code), lowercase(q))
}

pub open spec fn entries_matching(es: Seq<EntryModel>, q: Seq<char>) -> Seq<EntryModel>
    decreases es.len(),
{
    if es.len() == 0 {
        Seq::empty()
    } else if matches_query(es.last(), q) {
        entries_matching(es.drop_last(), q).push(es.last())
    } else {
        entries_matching(es.drop_last(), q)
    }
}

/// Every running total of the frequencies fits in `i64` (summing them
/// overflows at the first that does not).
pub open spec fn sums_fit(es: Seq<EntryModel>) -> bool {
    forall|k: int| 0 <= k <= es.len() ==> i64::MIN <= #[trigger] frequency_sum(es.take(k)) <= i64::MAX
}

pub open spec fn frequency_sum(es: Seq<EntryModel>) -> int
    decreases es.len(),
{
    if es.len() == 0 {
        0
    } else {
        frequency_sum(es.drop_last()) + es.last().frequency
    }
}

/// The key an order sorts by, and whether it is descending:
/// `frequency_desc` (also any unknown order), `frequency_asc`, `word_asc`,
/// `word_desc`, `code_asc`.
pub open spec fn order_key(e: EntryModel, sort_by: Seq<char>) -> KeyModel {
    if sort_by == "word_asc"@ || sort_by == "word_desc"@ {
        KeyModel::Text(e.word)
    } else if sort_by == "code_asc"@ {
        KeyModel::Text(e.code)
    } else {
        KeyModel::Num(e.frequency as int)
    }
}

pub open spec fn order_desc(sort_by: Seq<char>) -> bool {
    !(sort_by == "frequency_asc"@ || sort_by == "word_asc"@ || sort_by == "code_asc"@)
}

pub open spec fn sorted_entries(es: Seq<EntryModel>, sort_by: Seq<char>) -> Seq<EntryModel> {
    sorted_by_keys(es, es.map_values(|e: EntryModel| order_key(e, sort_by)), order_desc(sort_by))
}

/// The items of page `page`, `per_page` to a page.
pub open spec fn page_of<T>(s: Seq<T>, page: int, per_page: int) -> Seq<T> {
    let start = if page * per_page < s.len() { page * per_page } else { s.len() as int };
    let end = if page * per_page + per_page < s.len() { page * per_page + per_page } else { s.len() as int };
    s.subrange(start, end)
}

fn same_text(a: &String, b: &str) -> (r: bool)
    ensures
        r == (a@ == b@),
{
    *a == b.to_string()
}

fn entry_matches(e: &DictEntry, q: &String) -> (r: bool)
    ensures
        r == (contains_text(lowercase(e.word@), q@) || contains_text(lowercase(e.code@), q@)),
{
    let w = to_lowercase(e.word.as_str());
    if text_contains(w.as_str(), q.as_str()) {
        return true;
    }
    let c = to_lowercase(e.code.as_str());
    text_contains(c.as_str(), q.as_str())
}

/// A page of the entries of a snapshot text that match the search, in the
/// order asked for, with the count and the frequency total of all that
/// matched; `None` when summing the frequencies overflows `i64`.
pub fn load_user_dict_entries(
    content: &str,
    page: usize,
    per_page: usize,
    sort_by: &String,
    search: Option<String>,
) -> (r: Option<DictEntriesResult>)
    requires
        page * per_page <= usize::MAX,
    ensures
        ({
            let found = match search {
                Some(q) => entries_matching(snapshot_entries_of(content@), q@),
                None => snapshot_entries_of(content@),
            };
            match r {
                Some(res) => {
                    &&& sums_fit(found)
                    &&& res.total_frequency == frequency_sum(found)
                    &&& res.total == found.len()
                    &&& res.page == page
                    &&& res.per_page == per_page
                    &&& entries_view(res.entries@) == page_of(
                        sorted_entries(found, sort_by@),
                        page as int,
                        per_page as int,
                    )
                },
                None => !sums_fit(found),
            }
        }),
{
    let all = snapshot_entries(content);
    let ghost es = entries_view(all@);
    let mut found: Vec<DictEntry> = Vec::new();
    match &search {
        Some(query) => {
            let q = to_lowercase(query.as_str());
            let mut rest = all;
            let n = rest.len();
            let mut i: usize = 0;
            let ghost src = rest@;
            while i < n
                invariant
                    n == src.len(),
                    i <= n,
                    rest@ == src.skip(i as int),
                    es == entries_view(src),
                    q@ == lowercase(query@),
                    entries_view(found@) == entries_matching(es.take(i as int), query@),
                decreases n - i,
            {
                let ghost before = found@;
                assert(es.take(i + 1).drop_last() =~= es.take(i as int));
                assert(es.take(i + 1).last() == src[i as int]@);
                assert(rest@[0] == src[i as int]);
                let e = rest.remove(0);
                assert(rest@ =~= src.skip(i + 1));
                assert(e@ == es[i as int]);
                if entry_matches(&e, &q) {
                    assert(matches_query(es[i as int], query@));
                    found.push(e);
                    assert(entries_view(found@) =~= entries_view(before).push(found@.last()@));
                } else {
                    assert(!matches_query(es[i as int], query@));
                }
                assert(entries_matching(es.take(i + 1), query@) == (if matches_query(es[i as int], query@) {
                    entries_matching(es.take(i as int), query@).push(es[i as int])
                } else {
                    entries_matching(es.take(i as int), query@)
                }));
                i = i + 1;
            }
            assert(es.take(n as int) =~= es);
        },
        None => {
            found = all;
        },
    }
    let ghost fv = entries_view(found@);
    assert(fv == match search {
        Some(q) => entries_matching(snapshot_entries_of(content@), q@),
        None => snapshot_entries_of(content@),
    });
    let mut total: i64 = 0;
    let mut i: usize = 0;
    while i < found.len()
        invariant
            i <= found@.len(),
            fv == entries_view(found@),
            total == frequency_sum(fv.take(i as int)),
            fv == match search {
                Some(q) => entries_matching(snapshot_entries_of(content@), q@),
                None => snapshot_entries_of(content@),
            },
            forall|k: int| 0 <= k <= i ==> i64::MIN <= #[trigger] frequency_sum(fv.take(k)) <= i64::MAX,
        decreases found@.len() - i,
    {
        assert(fv.take(i + 1).drop_last() =~= fv.take(i as int));
        let f = found[i].frequency;
        match total.checked_add(f) {
            Some(t) => {
                total = t;
                assert(fv.take(i + 1).last() == fv[i as int]);
            },
            None => {
                assert(fv.take(i + 1).last() == fv[i as int]);
                assert(!(i64::MIN <= frequency_sum(fv.take(i + 1)) <= i64::MAX));
                assert(!sums_fit(fv));
                return None;
            },
        }
        i = i + 1;
    }
    assert(fv.take(i as int) =~= fv);
    let count = found.len();
    let mut keys: Vec<SortKey> = Vec::new();
    let mut j: usize = 0;
    while j < found.len()
        invariant
            j <= found@.len(),
            fv == entries_view(found@),
            keys_view(keys@) == fv.take(j as int).map_values(|e: EntryModel| order_key(e, sort_by@)),
        decreases found@.len() - j,
    {
        let ghost before = keys@;
        let e = &found[j];
        assert(fv[j as int] == e@);
        let k = if same_text(sort_by, "word_asc") || same_text(sort_by, "word_desc") {
            SortKey::Text(e.word.clone())
        } else if same_text(sort_by, "code_asc") {
            SortKey::Text(e.code.clone())
        } else {
            SortKey::Num(e.frequency)
        };
        assert(k@ == order_key(e@, sort_by@));
        keys.push(k);
        assert(keys_view(keys@) =~= keys_view(before).push(k@));
        j = j + 1;
        assert(fv.take(j as int).drop_last() =~= fv.take(j - 1));
        assert(keys_view(keys@) =~= fv.take(j as int).map_values(|e: EntryModel| order_key(e, sort_by@)));
    }
    assert(fv.take(j as int) =~= fv);
    let desc = !(same_text(sort_by, "frequency_asc") || same_text(sort_by, "word_asc") || same_text(sort_by, "code_asc"));
    let ghost unsorted = found@;
    let ghost kv = keys_view(keys@);
    let sorted = sort_by_keys(found, keys, desc);
    proof {
        crate::rime::order::lemma_sorted_map(unsorted, kv, desc, |x: DictEntry| x@);
    }
    let start = page * per_page;
    let mut rest = sorted;
    let ghost sv = rest@;
    let mut out: Vec<DictEntry> = Vec::new();
    let ghost lo = if start < sv.len() { start as int } else { sv.len() as int };
    let ghost hi = if start + per_page < sv.len() { start + per_page } else { sv.len() as int };
    if start < rest.len() {
        let mut skipped: usize = 0;
        while skipped < start
            invariant
                skipped <= start < sv.len(),
                rest@ == sv.skip(skipped as int),
            decreases start - skipped,
        {
            rest.remove(0);
            skipped = skipped + 1;
            assert(rest@ =~= sv.skip(skipped as int));
        }
        let mut taken: usize = 0;
        while taken < per_page && rest.len() > 0
            invariant
                start < sv.len(),
                lo == start,
                rest@ == sv.skip(start + taken),
                start + taken <= sv.len(),
                taken <= per_page,
                out@ == sv.subrange(start as int, start + taken),
            decreases per_page - taken,
        {
            let e = rest.remove(0);
            out.push(e);
            taken = taken + 1;
            assert(out@ =~= sv.subrange(start as int, start + taken));
            assert(rest@ =~= sv.skip(start + taken));
        }
        assert(start + taken == hi);
    } else {
        assert(out@ =~= sv.subrange(lo, hi));
    }
    proof {
        assert(out@ =~= sv.subrange(lo, hi));
        assert(entries_view(out@) =~= page_of(entries_view(sv), page as int, per_page as int));
    }
    Some(DictEntriesResult { entries: out, total: count, page, per_page, total_frequency: total })
}


// ---------------------------------------------------------------------------
// Editing the snapshot text
// ---------------------------------------------------------------------------

/// A text made of lines: each followed by a line feed.
pub open spec fn text_of_lines(ls: Seq<Seq<char>>) -> Seq<char> {
    joined(ls, "\n"@) + "\n"@
}

fn text_from_lines(ls: &Vec<Vec<char>>) -> (r: String)
    ensures
        r@ == text_of_lines(vecs_view(ls@)),
{
    proof {
        reveal_strlit("\n");
    }
    let sep = chars_of("\n");
    let mut t = join_chars(ls, sep.as_slice());
    t.push('\n');
    assert(t@ =~= text_of_lines(vecs_view(ls@)));
    string_of(t.as_slice())
}

/// Whether a line holds one of the entries named by `keys`.
pub open spec fn names_listed_entry(l: Seq<char>, keys: Seq<DictEntryKey>) -> bool {
    match line_entry(l) {
        Some(e) => exists|i: int| 0 <= i < keys.len() && (#[trigger] keys[i]).word@ == e.word && keys[i].code@ == e.code,
        None => false,
    }
}

/// The lines that are not dropped, in order.
pub open spec fn lines_kept(ls: Seq<Seq<char>>, drop: spec_fn(Seq<char>) -> bool) -> Seq<Seq<char>>
    decreases ls.len(),
{
    if ls.len() == 0 {
        Seq::empty()
    } else if drop(ls.last()) {
        lines_kept(ls.drop_last(), drop)
    } else {
        lines_kept(ls.drop_last(), drop).push(ls.last())
    }
}

/// The number of lines dropped.
pub open spec fn lines_dropped(ls: Seq<Seq<char>>, drop: spec_fn(Seq<char>) -> bool) -> nat
    decreases ls.len(),
{
    if ls.len() == 0 {
        0
    } else if drop(ls.last()) {
        lines_dropped(ls.drop_last(), drop) + 1
    } else {
        lines_dropped(ls.drop_last(), drop)
    }
}

fn key_listed(e: &DictEntry, keys: &Vec<DictEntryKey>) -> (r: bool)
    ensures
        r == exists|i: int| 0 <= i < keys@.len() && (#[trigger] keys@[i]).word@ == e.word@ && keys@[i].code@ == e.code@,
{
    let mut i: usize = 0;
    while i < keys.len()
        invariant
            i <= keys@.len(),
            forall|j: int| 0 <= j < i ==> !((#[trigger] keys@[j]).word@ == e.word@ && keys@[j].code@ == e.code@),
        decreases keys@.len() - i,
    {
        if keys[i].word == e.word && keys[i].code == e.code {
            return true;
        }
        i = i + 1;
    }
    false
}

/// Removes the entries named by `keys` from a snapshot text: the new text
/// and the number of entries removed (comments, blank lines and lines that
/// hold no entry stay).
pub fn delete_entries(content: &str, keys: &Vec<DictEntryKey>) -> (r: (String, usize))
    ensures
        r.0@ == deleted_text(content@, keys@),
        r.1 == lines_dropped(lines_of(content@), |l: Seq<char>| names_listed_entry(l, keys@)),
{
    let ls = lines(content);
    let ghost lv = vecs_view(ls@);
    let ghost drop = |l: Seq<char>| names_listed_entry(l, keys@);
    let mut kept: Vec<Vec<char>> = Vec::new();
    let mut deleted: usize = 0;
    let mut i: usize = 0;
    while i < ls.len()
        invariant
            i <= ls@.len(),
            lv == vecs_view(ls@),
            drop == (|l: Seq<char>| names_listed_entry(l, keys@)),
            vecs_view(kept@) == lines_kept(lv.take(i as int), drop),
            deleted == lines_dropped(lv.take(i as int), drop),
            deleted <= i,
        decreases ls@.len() - i,
    {
        let ghost before = kept@;
        assert(lv.take(i + 1).drop_last() =~= lv.take(i as int));
        assert(lv.take(i + 1).last() == ls@[i as int]@);
        let dropped = match entry_of(&ls[i]) {
            Some(e) => key_listed(&e, keys),
            None => false,
        };
        if dropped {
            deleted = deleted + 1;
        } else {
            kept.push(ls[i].clone());
            assert(vecs_view(kept@) =~= vecs_view(before).push(ls@[i as int]@));
        }
        i = i + 1;
    }
    assert(lv.take(i as int) =~= lv);
    (text_from_lines(&kept), deleted)
}

/// Whether a line holds an entry whose frequency is below `threshold`.
pub open spec fn is_low_entry(l: Seq<char>, threshold: i64) -> bool {
    match line_entry(l) {
        Some(e) => e.frequency < threshold,
        None => false,
    }
}

/// The text a deletion of the entries below `threshold` writes.
pub open spec fn low_deleted_text(content: Seq<char>, threshold: i64) -> Seq<char> {
    text_of_lines(lines_kept(lines_of(content), |l: Seq<char>| is_low_entry(l, threshold)))
}

/// Removes the entries whose frequency is below `threshold`: the new text
/// and the number removed.
pub fn batch_delete_low_frequency(content: &str, threshold: i64) -> (r: (String, usize))
    ensures
        r.0@ == low_deleted_text(content@, threshold),
        r.1 == lines_dropped(lines_of(content@), |l: Seq<char>| is_low_entry(l, threshold)),
{
    let ls = lines(content);
    let ghost lv = vecs_view(ls@);
    let ghost drop = |l: Seq<char>| is_low_entry(l, threshold);
    let mut kept: Vec<Vec<char>> = Vec::new();
    let mut deleted: usize = 0;
    let mut i: usize = 0;
    while i < ls.len()
        invariant
            i <= ls@.len(),
            lv == vecs_view(ls@),
            drop == (|l: Seq<char>| is_low_entry(l, threshold)),
            vecs_view(kept@) == lines_kept(lv.take(i as int), drop),
            deleted == lines_dropped(lv.take(i as int), drop),
            deleted <= i,
        decreases ls@.len() - i,
    {
        let ghost before = kept@;
        assert(lv.take(i + 1).drop_last() =~= lv.take(i as int));
        assert(lv.take(i + 1).last() == ls@[i as int]@);
        let dropped = match entry_of(&ls[i]) {
            Some(e) => e.frequency < threshold,
            None => false,
        };
        if dropped {
            deleted = deleted + 1;
        } else {
            kept.push(ls[i].clone());
            assert(vecs_view(kept@) =~= vecs_view(before).push(ls@[i as int]@));
        }
        i = i + 1;
    }
    assert(lv.take(i as int) =~= lv);
    (text_from_lines(&kept), deleted)
}

/// `c=N`.
pub open spec fn count_text(f: i64) -> Seq<char> {
    "c="@ + int_text(f as int)
}

/// The third column with its commit counts set to `f`: each `c=` field is
/// replaced and the others kept (fields joined by single spaces); a column
/// without one becomes `c=f`.
pub open spec fn updated_column(t: Seq<char>, f: i64) -> Seq<char> {
    let ws = words_of(t);
    if exists|i: int| 0 <= i < ws.len() && has_prefix(#[trigger] ws[i], "c="@) {
        joined(ws.map_values(|w: Seq<char>| if has_prefix(w, "c="@) { count_text(f) } else { w }), " "@)
    } else {
        count_text(f)
    }
}

/// A line with the entry `word`/`code` given frequency `f`; other lines as
/// they are.
pub open spec fn updated_line(l: Seq<char>, word: Seq<char>, code: Seq<char>, f: i64) -> Seq<char> {
    match line_entry(l) {
        Some(e) => if e.word == word && e.code == code {
            let p = split_on(l, '\t');
            joined(p.update(2, updated_column(p[2], f)), "\t"@)
        } else {
            l
        },
        None => l,
    }
}

/// The text an update writes.
pub open spec fn updated_text(content: Seq<char>, word: Seq<char>, code: Seq<char>, f: i64) -> Seq<char> {
    text_of_lines(updated_lines(lines_of(content), word, code, f))
}

/// The lines with the entry `word`/`code` given frequency `f`.
pub open spec fn updated_lines(ls: Seq<Seq<char>>, word: Seq<char>, code: Seq<char>, f: i64) -> Seq<Seq<char>> {
    ls.map_values(|l: Seq<char>| updated_line(l, word, code, f))
}

fn count_chars(f: i64) -> (r: Vec<char>)
    ensures
        r@ == count_text(f),
{
    proof {
        reveal_strlit("c=");
    }
    let mut r = chars_of("c=");
    let d = crate::rime::grammar::int_chars(f);
    push_all(&mut r, d.as_slice());
    r
}

fn updated_column_chars(t: &Vec<char>, f: i64) -> (r: Vec<char>)
    ensures
        r@ == updated_column(t@, f),
{
    proof {
        reveal_strlit("c=");
        reveal_strlit(" ");
    }
    let ws = words(t.as_slice());
    let ghost wv = vecs_view(ws@);
    let mut out: Vec<Vec<char>> = Vec::new();
    let mut found = false;
    let mut i: usize = 0;
    while i < ws.len()
        invariant
            i <= ws@.len(),
            wv == vecs_view(ws@),
            vecs_view(out@) == wv.take(i as int).map_values(
                |w: Seq<char>| if has_prefix(w, "c="@) { count_text(f) } else { w },
            ),
            found == exists|j: int| 0 <= j < i && has_prefix(#[trigger] wv[j], "c="@),
        decreases ws@.len() - i,
    {
        let ghost before = out@;
        let w = &ws[i];
        proof {
            reveal_strlit("c=");
        }
        assert(wv[i as int] == w@);
        let is_c = w.len() >= 2 && w[0] == 'c' && w[1] == '=';
        assert(is_c == has_prefix(w@, "c="@)) by {
            if w@.len() >= 2 {
                assert(w@.take(2)[0] == w@[0]);
                assert(w@.take(2)[1] == w@[1]);
                if is_c {
                    assert(w@.take(2) =~= "c="@);
                }
            }
        }
        if is_c {
            out.push(count_chars(f));
            found = true;
        } else {
            out.push(w.clone());
        }
        assert(vecs_view(out@) =~= vecs_view(before).push(if has_prefix(wv[i as int], "c="@) { count_text(f) } else { wv[i as int] }));
        i = i + 1;
        assert(vecs_view(out@) =~= wv.take(i as int).map_values(
            |w: Seq<char>| if has_prefix(w, "c="@) { count_text(f) } else { w },
        ));
    }
    assert(wv.take(i as int) =~= wv);
    if found {
        let sep = chars_of(" ");
        join_chars(&out, sep.as_slice())
    } else {
        count_chars(f)
    }
}

fn updated_line_chars(l: &Vec<char>, word: &String, code: &String, f: i64) -> (r: Vec<char>)
    ensures
        r@ == updated_line(l@, word@, code@, f),
{
    proof {
        reveal_strlit("\t");
    }
    match entry_of(l) {
        Some(e) => if e.word == *word && e.code == *code {
            let p = split_chars(l.as_slice(), '\t');
            let ghost pv = vecs_view(p@);
            assert(pv[2] == p@[2]@);
            let third = updated_column_chars(&p[2], f);
            let mut q: Vec<Vec<char>> = Vec::new();
            let mut i: usize = 0;
            while i < p.len()
                invariant
                    i <= p@.len(),
                    p@.len() >= 3,
                    pv == vecs_view(p@),
                    third@ == updated_column(pv[2], f),
                    vecs_view(q@) == pv.update(2, third@).take(i as int),
                decreases p@.len() - i,
            {
                let ghost before = q@;
                if i == 2 {
                    q.push(third.clone());
                } else {
                    q.push(p[i].clone());
                }
                assert(vecs_view(q@) =~= vecs_view(before).push(pv.update(2, third@)[i as int]));
                i = i + 1;
                assert(vecs_view(q@) =~= pv.update(2, third@).take(i as int));
            }
            assert(pv.update(2, third@).take(i as int) =~= pv.update(2, third@));
            let sep = chars_of("\t");
            join_chars(&q, sep.as_slice())
        } else {
            l.clone()
        },
        None => l.clone(),
    }
}

/// Sets the frequency of the entry `word`/`code` in a snapshot text.
pub fn update_entry_frequency(content: &str, word: &String, code: &String, new_freq: i64) -> (r: String)
    ensures
        r@ == updated_text(content@, word@, code@, new_freq),
{
    let ls = lines(content);
    let ghost lv = vecs_view(ls@);
    let mut out: Vec<Vec<char>> = Vec::new();
    let mut i: usize = 0;
    while i < ls.len()
        invariant
            i <= ls@.len(),
            lv == vecs_view(ls@),
            vecs_view(out@) == updated_lines(lv.take(i as int), word@, code@, new_freq),
        decreases ls@.len() - i,
    {
        assert(lv[i as int] == ls@[i as int]@);
        let ghost before = out@;
        out.push(updated_line_chars(&ls[i], word, code, new_freq));
        assert(vecs_view(out@) =~= vecs_view(before).push(updated_line(lv[i as int], word@, code@, new_freq)));
        i = i + 1;
        assert(vecs_view(out@) =~= updated_lines(lv.take(i as int), word@, code@, new_freq));
    }
    assert(lv.take(i as int) =~= lv);
    assert(lv == lines_of(content@));
    text_from_lines(&out)
}

/// An exported entry: `word<TAB>code<TAB>frequency`.
pub open spec fn entry_text(w: Seq<char>, c: Seq<char>, f: i64) -> Seq<char> {
    w + "\t"@ + c + "\t"@ + int_text(f as int)
}

fn entry_chars(w: &String, c: &String, f: i64) -> (r: Vec<char>)
    ensures
        r@ == entry_text(w@, c@, f),
{
    proof {
        reveal_strlit("\t");
    }
    let mut r = chars_of(w.as_str());
    r.push('\t');
    push_all(&mut r, chars_of(c.as_str()).as_slice());
    r.push('\t');
    push_all(&mut r, crate::rime::grammar::int_chars(f).as_slice());
    assert(r@ =~= entry_text(w@, c@, f));
    r
}

/// The export lines of the entries.
pub open spec fn export_lines(es: Seq<EntryModel>) -> Seq<Seq<char>> {
    es.map_values(|e: EntryModel| entry_text(e.word, e.code, e.frequency))
}

/// The text a user dictionary is exported as, and its number of entries.
pub fn export_user_dict(content: &str) -> (r: (String, usize))
    ensures
        r.0@ == text_of_lines(export_lines(snapshot_entries_of(content@))),
        r.1 == snapshot_entries_of(content@).len(),
{
    let es = snapshot_entries(content);
    let mut out: Vec<Vec<char>> = Vec::new();
    let mut i: usize = 0;
    while i < es.len()
        invariant
            i <= es@.len(),
            entries_view(es@) == snapshot_entries_of(content@),
            vecs_view(out@) == export_lines(entries_view(es@).take(i as int)),
        decreases es@.len() - i,
    {
        let ghost before = out@;
        out.push(entry_chars(&es[i].word, &es[i].code, es[i].frequency));
        assert(entries_view(es@)[i as int] == es@[i as int]@);
        assert(vecs_view(out@) =~= vecs_view(before).push(entry_text(es@[i as int].word@, es@[i as int].code@, es@[i as int].frequency)));
        i = i + 1;
        assert(vecs_view(out@) =~= export_lines(entries_view(es@).take(i as int)));
    }
    assert(entries_view(es@).take(i as int) =~= entries_view(es@));
    (text_from_lines(&out), es.len())
}

/// Why an export path is refused before the file system is asked.
pub open spec fn export_path_error(p: Seq<char>) -> Option<Seq<char>> {
    if p.len() == 0 {
        Some("Output path is empty"@)
    } else if contains_dot_dot(p) {
        Some("Output path contains path traversal"@)
    } else {
        None
    }
}

pub fn validate_export_path(path: &str) -> (r: Result<(), String>)
    ensures
        match export_path_error(path@) {
            Some(e) => r matches Err(m) && m@ == e,
            None => r is Ok,
        },
{
    if path.is_empty() {
        return Err("Output path is empty".to_string());
    }
    if has_dot_dot(path) {
        return Err("Output path contains path traversal".to_string());
    }
    Ok(())
}

/// Whether the text holds the entry `word`/`code`.
pub open spec fn has_entry(content: Seq<char>, word: Seq<char>, code: Seq<char>) -> bool {
    exists|i: int|
        0 <= i < snapshot_entries_of(content).len() && (#[trigger] snapshot_entries_of(content)[i]).word == word
            && snapshot_entries_of(content)[i].code == code
}

/// The text with a new entry appended after the text stripped of trailing
/// whitespace, or the refusal when the entry is there already.
pub open spec fn added_entry(content: Seq<char>, word: Seq<char>, code: Seq<char>, f: i64) -> Result<Seq<char>, Seq<char>> {
    if has_entry(content, word, code) {
        Err("Entry '"@ + word + "' with code '"@ + code + "' already exists"@)
    } else if content.len() == 0 {
        Ok(entry_text(word, code, f) + "\n"@)
    } else {
        Ok(trim_end(content) + "\n"@ + entry_text(word, code, f) + "\n"@)
    }
}

/// Appends an entry to a snapshot text (the text is empty when the snapshot
/// could not be read).
pub fn add_dict_entry(content: &str, entry: &NewDictEntry) -> (r: Result<String, String>)
    ensures
        match added_entry(content@, entry.word@, entry.code@, entry.frequency) {
            Ok(t) => r matches Ok(x) && x@ == t,
            Err(e) => r matches Err(x) && x@ == e,
        },
{
    proof {
        reveal_strlit("Entry '");
        reveal_strlit("' with code '");
        reveal_strlit("' already exists");
        reveal_strlit("\n");
    }
    let es = snapshot_entries(content);
    let mut i: usize = 0;
    while i < es.len()
        invariant
            i <= es@.len(),
            entries_view(es@) == snapshot_entries_of(content@),
            forall|j: int| 0 <= j < i ==> !((#[trigger] es@[j]).word@ == entry.word@ && es@[j].code@ == entry.code@),
        decreases es@.len() - i,
    {
        if es[i].word == entry.word && es[i].code == entry.code {
            assert(snapshot_entries_of(content@)[i as int] == es@[i as int]@);
            let mut m = chars_of("Entry '");
            push_all(&mut m, chars_of(entry.word.as_str()).as_slice());
            push_all(&mut m, chars_of("' with code '").as_slice());
            push_all(&mut m, chars_of(entry.code.as_str()).as_slice());
            push_all(&mut m, chars_of("' already exists").as_slice());
            return Err(string_of(m.as_slice()));
        }
        i = i + 1;
    }
    assert(!has_entry(content@, entry.word@, entry.code@)) by {
        assert forall|j: int| 0 <= j < snapshot_entries_of(content@).len() implies !((#[trigger] snapshot_entries_of(content@)[j]).word == entry.word@
            && snapshot_entries_of(content@)[j].code == entry.code@) by {
            assert(snapshot_entries_of(content@)[j] == es@[j]@);
        }
    }
    let line = entry_chars(&entry.word, &entry.code, entry.frequency);
    let cs = chars_of(content);
    let mut out: Vec<char>;
    if cs.len() == 0 {
        out = line;
        out.push('\n');
    } else {
        out = crate::rime::text::trim_end_chars(cs.as_slice());
        out.push('\n');
        push_all(&mut out, line.as_slice());
        out.push('\n');
    }
    Ok(string_of(out.as_slice()))
}

/// The lines of a snapshot that count as entries: not comments or blank, and
/// holding a tab.
pub open spec fn counted_lines(ls: Seq<Seq<char>>) -> nat
    decreases ls.len(),
{
    if ls.len() == 0 {
        0
    } else if is_entry_line(ls.last()) && contains_char(ls.last(), '\t') {
        counted_lines(ls.drop_last()) + 1
    } else {
        counted_lines(ls.drop_last())
    }
}

/// The number of entries a snapshot text counts.
pub fn count_snapshot_entries(content: &str) -> (n: usize)
    ensures
        n == counted_lines(lines_of(content@)),
{
    let ls = lines(content);
    let ghost lv = vecs_view(ls@);
    let mut n: usize = 0;
    let mut i: usize = 0;
    while i < ls.len()
        invariant
            i <= ls@.len(),
            lv == vecs_view(ls@),
            n == counted_lines(lv.take(i as int)),
            n <= i,
        decreases ls@.len() - i,
    {
        assert(lv.take(i + 1).drop_last() =~= lv.take(i as int));
        assert(lv.take(i + 1).last() == ls@[i as int]@);
        let l = &ls[i];
        if !is_blank_or_comment(l) && has_tab(l) {
            n = n + 1;
        }
        i = i + 1;
    }
    assert(lv.take(i as int) =~= lv);
    n
}

fn has_tab(l: &Vec<char>) -> (r: bool)
    ensures
        r == contains_char(l@, '\t'),
{
    let mut i: usize = 0;
    while i < l.len()
        invariant
            i <= l@.len(),
            forall|j: int| 0 <= j < i ==> l@[j] != '\t',
        decreases l@.len() - i,
    {
        if l[i] == '\t' {
            return true;
        }
        i = i + 1;
    }
    false
}


// ---------------------------------------------------------------------------
// Identifiers and names
// ---------------------------------------------------------------------------

/// A character an identifier may hold: an ASCII letter or digit, `_` or `-`.
pub open spec fn is_id_char(c: char) -> bool {
    ('a' <= c && c <= 'z') || ('A' <= c && c <= 'Z') || ('0' <= c && c <= '9') || c == '_' || c == '-'
}

/// An identifier is empty or longer than 64 bytes.
pub open spec fn id_length_bad(id: Seq<char>) -> bool {
    id.len() == 0 || vstd::utf8::encode_utf8(id).len() > 64
}

/// An identifier holds a character it may not.
pub open spec fn id_chars_bad(id: Seq<char>) -> bool {
    exists|i: int| 0 <= i < id.len() && !is_id_char(#[trigger] id[i])
}

/// Checks an identifier: 0 when it is good, 1 when its length is wrong, 2
/// when it holds a character it may not.
pub fn id_problem(id: &str) -> (r: u8)
    ensures
        r == (if id_length_bad(id@) {
            1u8
        } else if id_chars_bad(id@) {
            2u8
        } else {
            0u8
        }),
{
    if id.is_empty() || crate::rime::text::utf8_len_exceeds(id, 64) {
        return 1;
    }
    let cs = chars_of(id);
    let mut i: usize = 0;
    while i < cs.len()
        invariant
            i <= cs@.len(),
            cs@ == id@,
            !id_length_bad(id@),
            forall|j: int| 0 <= j < i ==> is_id_char(#[trigger] cs@[j]),
        decreases cs@.len() - i,
    {
        let c = cs[i];
        if !(('a' <= c && c <= 'z') || ('A' <= c && c <= 'Z') || ('0' <= c && c <= '9') || c == '_' || c == '-') {
            assert(!is_id_char(id@[i as int]));
            return 2;
        }
        i = i + 1;
    }
    0
}

/// The refusal of a dictionary id, if any.
pub open spec fn dict_id_error(id: Seq<char>) -> Option<Seq<char>> {
    if id_length_bad(id) {
        Some("Invalid dictionary ID"@)
    } else if id_chars_bad(id) {
        Some("Dictionary ID contains invalid characters"@)
    } else {
        None
    }
}

pub fn validate_dict_id(id: &str) -> (r: Result<(), String>)
    ensures
        match dict_id_error(id@) {
            Some(e) => r matches Err(m) && m@ == e,
            None => r is Ok,
        },
{
    match id_problem(id) {
        1 => Err("Invalid dictionary ID".to_string()),
        2 => Err("Dictionary ID contains invalid characters".to_string()),
        _ => Ok(()),
    }
}

/// The name a dictionary is shown by: the known ones by name, others by id.
pub open spec fn display_name_of(id: Seq<char>) -> Seq<char> {
    if id == "luna_pinyin"@ {
        "朙月拼音"@
    } else if id == "terra_pinyin"@ {
        "地球拼音"@
    } else if id == "double_pinyin"@ {
        "自然双拼"@
    } else if id == "luna_pinyin_simp"@ {
        "朙月拼音·简化字"@
    } else if id == "emoji"@ {
        "Emoji"@
    } else {
        id
    }
}

pub fn dict_display_name(dict_id: &str) -> (r: String)
    ensures
        r@ == display_name_of(dict_id@),
{
    let id = dict_id.to_string();
    if id == "luna_pinyin".to_string() {
        "朙月拼音".to_string()
    } else if id == "terra_pinyin".to_string() {
        "地球拼音".to_string()
    } else if id == "double_pinyin".to_string() {
        "自然双拼".to_string()
    } else if id == "luna_pinyin_simp".to_string() {
        "朙月拼音·简化字".to_string()
    } else if id == "emoji".to_string() {
        "Emoji".to_string()
    } else {
        id
    }
}

/// The dictionary id of a `*.userdb` directory: its name with every
/// `.userdb` removed.
pub fn dict_id_from_path(dir_name: &str) -> (r: String)
    ensures
        r@ == replaced(dir_name@, ".userdb"@, Seq::empty()),
{
    proof {
        reveal_strlit(".userdb");
        reveal_strlit("");
    }
    assert(""@ =~= Seq::<char>::empty());
    replace_all(dir_name, ".userdb", "")
}

/// The userdb directories among the entries of the user directory (a name
/// and whether it is a directory), sorted by name.
pub open spec fn userdb_names_in(entries: Seq<(String, bool)>) -> Seq<Seq<char>>
    decreases entries.len(),
{
    if entries.len() == 0 {
        Seq::empty()
    } else if entries.last().1 && has_suffix(entries.last().0@, ".userdb"@) {
        userdb_names_in(entries.drop_last()).push(entries.last().0@)
    } else {
        userdb_names_in(entries.drop_last())
    }
}

pub fn userdb_dirs(entries: &Vec<(String, bool)>) -> (r: Vec<String>)
    ensures
        strings_view(r@) == sorted_by_keys(
            userdb_names_in(entries@),
            userdb_names_in(entries@).map_values(|n: Seq<char>| KeyModel::Text(n)),
            false,
        ),
{
    let mut names: Vec<String> = Vec::new();
    let mut keys: Vec<SortKey> = Vec::new();
    let mut i: usize = 0;
    while i < entries.len()
        invariant
            i <= entries@.len(),
            names@.len() == keys@.len(),
            strings_view(names@) == userdb_names_in(entries@.take(i as int)),
            keys_view(keys@) == userdb_names_in(entries@.take(i as int)).map_values(|n: Seq<char>| KeyModel::Text(n)),
        decreases entries@.len() - i,
    {
        let ghost before = names@;
        let ghost before_keys = keys@;
        assert(entries@.take(i + 1).drop_last() =~= entries@.take(i as int));
        assert(entries@.take(i + 1).last() == entries@[i as int]);
        let (name, is_dir) = &entries[i];
        if *is_dir && ends_with(name.as_str(), ".userdb") {
            names.push(name.clone());
            keys.push(SortKey::Text(name.clone()));
            assert(strings_view(names@) =~= strings_view(before).push(name@));
            assert(keys_view(keys@) =~= keys_view(before_keys).push(KeyModel::Text(name@)));
        }
        i = i + 1;
    }
    assert(entries@.take(i as int) =~= entries@);
    let ghost unsorted = names@;
    let ghost kv = keys_view(keys@);
    let r = sort_by_keys(names, keys, false);
    proof {
        crate::rime::order::lemma_sorted_map(unsorted, kv, false, |x: String| x@);
    }
    r
}

/// A schema goes with a dictionary when its id is the dictionary's, or one
/// of the two extends the other after a dot.
pub open spec fn schema_goes_with(s: Seq<char>, dict_id: Seq<char>) -> bool {
    s == dict_id || has_prefix(s, dict_id + "."@) || has_prefix(dict_id, s + "."@)
}

/// The schemas of the user directory that go with a dictionary: the ids of
/// the `*.schema.yaml` files, in order.
pub open spec fn schemas_for_dict(names: Seq<String>, dict_id: Seq<char>) -> Seq<Seq<char>>
    decreases names.len(),
{
    if names.len() == 0 {
        Seq::empty()
    } else {
        let n = names.last()@;
        let rest = schemas_for_dict(names.drop_last(), dict_id);
        if has_suffix(n, ".schema.yaml"@) && schema_goes_with(without_suffixes(n, ".schema.yaml"@), dict_id) {
            rest.push(without_suffixes(n, ".schema.yaml"@))
        } else {
            rest
        }
    }
}

fn concat_dot(a: &str) -> (r: String)
    ensures
        r@ == a@ + "."@,
{
    proof {
        reveal_strlit(".");
    }
    let mut v = chars_of(a);
    v.push('.');
    assert(v@ =~= a@ + "."@);
    string_of(v.as_slice())
}

/// The schemas that go with a dictionary, from the file names of the user
/// directory.
pub fn find_schemas_for_dict(names: &Vec<String>, dict_id: &str) -> (r: Vec<String>)
    ensures
        strings_view(r@) == schemas_for_dict(names@, dict_id@),
{
    proof {
        reveal_strlit(".schema.yaml");
    }
    let dotted = concat_dot(dict_id);
    let mut r: Vec<String> = Vec::new();
    let mut i: usize = 0;
    while i < names.len()
        invariant
            i <= names@.len(),
            dotted@ == dict_id@ + "."@,
            strings_view(r@) == schemas_for_dict(names@.take(i as int), dict_id@),
        decreases names@.len() - i,
    {
        let ghost before = r@;
        assert(names@.take(i + 1).drop_last() =~= names@.take(i as int));
        assert(names@.take(i + 1).last() == names@[i as int]);
        let n = &names[i];
        proof {
            reveal_strlit(".schema.yaml");
        }
        if ends_with(n.as_str(), ".schema.yaml") {
            let id = trim_end_matches(n.as_str(), ".schema.yaml");
            let goes = id == dict_id.to_string() || starts_with(id.as_str(), dotted.as_str()) || starts_with(
                dict_id,
                concat_dot(id.as_str()).as_str(),
            );
            if goes {
                r.push(id);
                assert(strings_view(r@) =~= strings_view(before).push(without_suffixes(n@, ".schema.yaml"@)));
            }
        }
        i = i + 1;
    }
    assert(names@.take(i as int) =~= names@);
    r
}

/// The entry count shown for a dictionary: -1 when it has data but no text
/// snapshot counts any entry.
pub fn reported_entry_count(count: usize, file_size: i64) -> (r: i64)
    requires
        count <= i64::MAX,
    ensures
        r == (if count == 0 && file_size > 0 {
            -1
        } else {
            count as int
        }),
{
    if count == 0 && file_size > 0 {
        -1
    } else {
        count as i64
    }
}

// ---------------------------------------------------------------------------
// Snapshot files
// ---------------------------------------------------------------------------

/// A snapshot file as found: its name, when it was modified (formatted) and
/// its size.
pub struct FileMeta {
    pub name: String,
    pub created_at: String,
    pub size: i64,
}

/// The directory a device writes its sync snapshots to: the installation's
/// `sync_dir` and `installation_id`, when both are strings.
pub open spec fn sync_device_of(installation: YamlView) -> Option<(Seq<char>, Seq<char>)> {
    match (doc_get(installation, "sync_dir"@), doc_get(installation, "installation_id"@)) {
        (Some(d), Some(i)) => match (str_of(d), str_of(i)) {
            (Some(ds), Some(is)) => Some((ds, is)),
            _ => None,
        },
        _ => None,
    }
}

pub fn sync_device(installation: &YamlValue) -> (r: Option<(String, String)>)
    ensures
        match sync_device_of(installation@) {
            Some(p) => r matches Some(x) && x.0@ == p.0 && x.1@ == p.1,
            None => r is None,
        },
{
    match (get_in_document(installation, "sync_dir"), get_in_document(installation, "installation_id")) {
        (Some(d), Some(i)) => match (d.as_str(), i.as_str()) {
            (Some(ds), Some(is)) => Some((ds.clone(), is.clone())),
            _ => None,
        },
        _ => None,
    }
}

/// Whether an installation document names a sync directory.
pub open spec fn sync_configured_in(installation: YamlView) -> bool {
    match doc_get(installation, "sync_dir"@) {
        Some(v) => str_of(v) is Some,
        None => false,
    }
}

pub fn sync_configured(installation: &YamlValue) -> (r: bool)
    ensures
        r == sync_configured_in(installation@),
{
    match get_in_document(installation, "sync_dir") {
        Some(v) => v.as_str().is_some(),
        None => false,
    }
}

/// The position of the first of the latest times, when there is one.
pub open spec fn is_first_latest(times: Seq<i128>, p: int) -> bool {
    &&& 0 <= p < times.len()
    &&& forall|j: int| 0 <= j < times.len() ==> times[j] <= times[p]
    &&& forall|j: int| 0 <= j < p ==> times[j] < times[p]
}

/// Picks the most recent of the candidate snapshots (the first of them on a
/// tie), by their modification times.
pub fn latest_index(times: &Vec<i128>) -> (r: Option<usize>)
    ensures
        match r {
            Some(p) => is_first_latest(times@, p as int),
            None => times@.len() == 0,
        },
{
    if times.len() == 0 {
        return None;
    }
    let mut best: usize = 0;
    let mut i: usize = 1;
    while i < times.len()
        invariant
            1 <= i <= times@.len(),
            best < i,
            forall|j: int| 0 <= j < i ==> times@[j] <= times@[best as int],
            forall|j: int| 0 <= j < best ==> times@[j] < times@[best as int],
        decreases times@.len() - i,
    {
        if times[i] > times[best] {
            best = i;
        }
        i = i + 1;
    }
    Some(best)
}

/// A snapshot name shown for a file of the userdb directory: `dict_id/name`.
pub open spec fn userdb_snapshot_name(dict_id: Seq<char>, name: Seq<char>) -> Seq<char> {
    dict_id + "/"@ + name
}

/// Whether a file of the sync directory is the dictionary's snapshot.
pub open spec fn is_sync_snapshot(name: Seq<char>, dict_id: Seq<char>) -> bool {
    name == dict_id + ".userdb.txt"@
}

/// Whether a file of `user_dictionaries/` is one of the dictionary's
/// snapshots.
pub open spec fn is_legacy_snapshot(name: Seq<char>, dict_id: Seq<char>) -> bool {
    has_prefix(name, dict_id + "."@) && has_suffix(name, ".txt"@)
}

pub struct SnapshotModel {
    pub file_name: Seq<char>,
    pub created_at: Seq<char>,
    pub size: i64,
    pub snapshot_type: Seq<char>,
}

impl View for SnapshotInfo {
    type V = SnapshotModel;

    open spec fn view(&self) -> SnapshotModel {
        SnapshotModel {
            file_name: self.file_name@,
            created_at: self.created_at@,
            size: self.size,
            snapshot_type: self.snapshot_type@,
        }
    }
}

pub open spec fn snapshots_view(v: Seq<SnapshotInfo>) -> Seq<SnapshotModel> {
    v.map_values(|s: SnapshotInfo| s@)
}

/// Whether some file of the list passes `pick` under the name `x`.
pub open spec fn named_in(x: Seq<char>, files: Seq<FileMeta>, pick: spec_fn(Seq<char>) -> bool) -> bool {
    exists|j: int| 0 <= j < files.len() && #[trigger] files[j].name@ == x && pick(x)
}

/// The snapshot a file is listed as.
pub open spec fn listed_as(f: FileMeta, name: Seq<char>, kind: Seq<char>) -> SnapshotModel {
    SnapshotModel { file_name: name, created_at: f.created_at@, size: f.size, snapshot_type: kind }
}

/// The snapshots of the sync directory of this device.
pub open spec fn sync_snapshots(files: Seq<FileMeta>, id: Seq<char>) -> Seq<SnapshotModel>
    decreases files.len(),
{
    if files.len() == 0 {
        Seq::empty()
    } else if is_sync_snapshot(files.last().name@, id) {
        sync_snapshots(files.drop_last(), id).push(listed_as(files.last(), files.last().name@, "sync"@))
    } else {
        sync_snapshots(files.drop_last(), id)
    }
}

/// The snapshots of `user_dictionaries/` not found in the sync directory
/// (a name listed twice counts once).
pub open spec fn legacy_snapshots(files: Seq<FileMeta>, sync: Seq<FileMeta>, id: Seq<char>) -> Seq<SnapshotModel>
    decreases files.len(),
{
    if files.len() == 0 {
        Seq::empty()
    } else {
        let n = files.last().name@;
        let rest = legacy_snapshots(files.drop_last(), sync, id);
        if is_legacy_snapshot(n, id) && !named_in(n, sync, |x: Seq<char>| is_sync_snapshot(x, id))
            && !named_in(n, files.drop_last(), |x: Seq<char>| true) {
            rest.push(listed_as(files.last(), n, "manual"@))
        } else {
            rest
        }
    }
}

/// The text files of the userdb directory not found in either place.
pub open spec fn userdb_snapshots(
    files: Seq<FileMeta>,
    sync: Seq<FileMeta>,
    legacy: Seq<FileMeta>,
    id: Seq<char>,
) -> Seq<SnapshotModel>
    decreases files.len(),
{
    if files.len() == 0 {
        Seq::empty()
    } else {
        let n = files.last().name@;
        let rest = userdb_snapshots(files.drop_last(), sync, legacy, id);
        if has_suffix(n, ".txt"@) && !named_in(n, sync, |x: Seq<char>| is_sync_snapshot(x, id))
            && !named_in(n, legacy, |x: Seq<char>| is_legacy_snapshot(x, id)) {
            rest.push(listed_as(files.last(), userdb_snapshot_name(id, n), "auto"@))
        } else {
            rest
        }
    }
}

/// The snapshots of a dictionary, newest first (stably, by their formatted
/// times).
pub open spec fn snapshots_of(
    id: Seq<char>,
    sync: Seq<FileMeta>,
    legacy: Seq<FileMeta>,
    userdb: Seq<FileMeta>,
) -> Seq<SnapshotModel> {
    let all = sync_snapshots(sync, id) + legacy_snapshots(legacy, sync, id) + userdb_snapshots(userdb, sync, legacy, id);
    sorted_by_keys(all, all.map_values(|s: SnapshotModel| KeyModel::Text(s.created_at)), true)
}

fn name_in(x: &String, files: &Vec<FileMeta>, upto: usize, id: &str, kind: u8) -> (r: bool)
    requires
        upto <= files@.len(),
        kind <= 2,
    ensures
        r == (exists|j: int|
            0 <= j < upto && #[trigger] files@[j].name@ == x@ && (if kind == 0 {
                is_sync_snapshot(x@, id@)
            } else if kind == 1 {
                is_legacy_snapshot(x@, id@)
            } else {
                true
            })),
{
    let ok = if kind == 0 {
        is_sync_name(x.as_str(), id)
    } else if kind == 1 {
        is_legacy_name(x.as_str(), id)
    } else {
        true
    };
    if !ok {
        return false;
    }
    let mut j: usize = 0;
    while j < upto
        invariant
            j <= upto <= files@.len(),
            kind <= 2,
            (if kind == 0 {
                is_sync_snapshot(x@, id@)
            } else if kind == 1 {
                is_legacy_snapshot(x@, id@)
            } else {
                true
            }),
            forall|k: int| 0 <= k < j ==> files@[k].name@ != x@,
        decreases upto - j,
    {
        if files[j].name == *x {
            assert(files@[j as int].name@ == x@);
            return true;
        }
        j = j + 1;
    }
    false
}

fn is_sync_name(name: &str, id: &str) -> (r: bool)
    ensures
        r == is_sync_snapshot(name@, id@),
{
    proof {
        reveal_strlit(".userdb.txt");
    }
    let mut v = chars_of(id);
    push_all(&mut v, chars_of(".userdb.txt").as_slice());
    let want = string_of(v.as_slice());
    name.to_string() == want
}

fn is_legacy_name(name: &str, id: &str) -> (r: bool)
    ensures
        r == is_legacy_snapshot(name@, id@),
{
    proof {
        reveal_strlit(".txt");
    }
    starts_with(name, concat_dot(id).as_str()) && ends_with(name, ".txt")
}

fn snapshot_from(f: &FileMeta, name: String, kind: &str) -> (s: SnapshotInfo)
    ensures
        s@ == listed_as(*f, name@, kind@),
{
    SnapshotInfo { file_name: name, created_at: f.created_at.clone(), size: f.size, snapshot_type: kind.to_string() }
}

/// A `.txt` file of the userdb directory.
pub open spec fn is_userdb_text(name: Seq<char>) -> bool {
    has_suffix(name, ".txt"@)
}

/// Whether the file that `kind` names (1: `user_dictionaries/`, 2: the
/// userdb directory) is a snapshot of the dictionary.
pub open spec fn snapshot_candidate(kind: u8, name: Seq<char>, dict_id: Seq<char>) -> bool {
    if kind == 1 {
        is_legacy_snapshot(name, dict_id)
    } else {
        is_userdb_text(name)
    }
}

/// `p` is the first of the newest files that are candidates.
pub open spec fn newest_candidate(files: Seq<(String, i128)>, kind: u8, dict_id: Seq<char>, p: int) -> bool {
    &&& 0 <= p < files.len()
    &&& snapshot_candidate(kind, files[p].0@, dict_id)
    &&& forall|j: int|
        0 <= j < files.len() && snapshot_candidate(kind, (#[trigger] files[j]).0@, dict_id) ==> files[j].1
            <= files[p].1
    &&& forall|j: int|
        0 <= j < p && snapshot_candidate(kind, (#[trigger] files[j]).0@, dict_id) ==> files[j].1 < files[p].1
}

pub open spec fn no_candidate(files: Seq<(String, i128)>, kind: u8, dict_id: Seq<char>) -> bool {
    forall|j: int| 0 <= j < files.len() ==> !snapshot_candidate(kind, (#[trigger] files[j]).0@, dict_id)
}

fn is_candidate(kind: u8, name: &str, dict_id: &str) -> (r: bool)
    ensures
        r == snapshot_candidate(kind, name@, dict_id@),
{
    proof {
        reveal_strlit(".txt");
    }
    if kind == 1 {
        is_legacy_name(name, dict_id)
    } else {
        ends_with(name, ".txt")
    }
}

fn newest_of(files: &Vec<(String, i128)>, kind: u8, dict_id: &str) -> (r: Option<usize>)
    ensures
        match r {
            Some(p) => newest_candidate(files@, kind, dict_id@, p as int),
            None => no_candidate(files@, kind, dict_id@),
        },
{
    let mut best: Option<usize> = None;
    let mut i: usize = 0;
    while i < files.len()
        invariant
            i <= files@.len(),
            match best {
                Some(b) => {
                    &&& b < i
                    &&& snapshot_candidate(kind, files@[b as int].0@, dict_id@)
                    &&& forall|j: int|
                        0 <= j < i && snapshot_candidate(kind, (#[trigger] files@[j]).0@, dict_id@) ==> files@[j].1
                            <= files@[b as int].1
                    &&& forall|j: int|
                        0 <= j < b && snapshot_candidate(kind, (#[trigger] files@[j]).0@, dict_id@) ==> files@[j].1
                            < files@[b as int].1
                },
                None => forall|j: int| 0 <= j < i ==> !snapshot_candidate(kind, (#[trigger] files@[j]).0@, dict_id@),
            },
        decreases files@.len() - i,
    {
        if is_candidate(kind, files[i].0.as_str(), dict_id) {
            match best {
                Some(b) => {
                    if files[b].1 < files[i].1 {
                        best = Some(i);
                    }
                },
                None => {
                    best = Some(i);
                },
            }
        }
        i = i + 1;
    }
    best
}

/// Whether place `p` of source `k` (0: the sync snapshots, 1:
/// `user_dictionaries/`, 2: the userdb directory) holds a snapshot of the
/// dictionary.
pub open spec fn is_snapshot_at(
    dict_id: Seq<char>,
    sync: Seq<i128>,
    legacy: Seq<(String, i128)>,
    userdb: Seq<(String, i128)>,
    k: int,
    p: int,
) -> bool {
    if k == 0 {
        0 <= p < sync.len()
    } else if k == 1 {
        0 <= p < legacy.len() && snapshot_candidate(1, legacy[p].0@, dict_id)
    } else if k == 2 {
        0 <= p < userdb.len() && snapshot_candidate(2, userdb[p].0@, dict_id)
    } else {
        false
    }
}

/// The modification time of place `p` of source `k`.
pub open spec fn snapshot_time_at(sync: Seq<i128>, legacy: Seq<(String, i128)>, userdb: Seq<(String, i128)>, k: int, p: int) -> i128 {
    if k == 0 {
        sync[p]
    } else if k == 1 {
        legacy[p].1
    } else {
        userdb[p].1
    }
}

/// Place `p` of source `k` is the newest snapshot of all, and the first of
/// the newest (sources in order, then places) on a tie.
pub open spec fn is_newest_snapshot(
    dict_id: Seq<char>,
    sync: Seq<i128>,
    legacy: Seq<(String, i128)>,
    userdb: Seq<(String, i128)>,
    k: int,
    p: int,
) -> bool {
    &&& is_snapshot_at(dict_id, sync, legacy, userdb, k, p)
    &&& forall|k2: int, p2: int|
        #[trigger] is_snapshot_at(dict_id, sync, legacy, userdb, k2, p2) ==> snapshot_time_at(sync, legacy, userdb, k2, p2)
            <= snapshot_time_at(sync, legacy, userdb, k, p)
    &&& forall|k2: int, p2: int|
        #[trigger] is_snapshot_at(dict_id, sync, legacy, userdb, k2, p2) && (k2 < k || (k2 == k && p2 < p))
            ==> snapshot_time_at(sync, legacy, userdb, k2, p2) < snapshot_time_at(sync, legacy, userdb, k, p)
}

/// The snapshot a dictionary is read from: the one modified last of all the
/// sync snapshots of all devices, the `<dict_id>.*.txt` of
/// `user_dictionaries/` and the `.txt` of the userdb directory (given with
/// their modification times); the first of the newest on a tie. The answer
/// is the source (0, 1 or 2) and the place of the file in it.
pub fn pick_snapshot(
    dict_id: &str,
    sync: &Vec<i128>,
    legacy: &Vec<(String, i128)>,
    userdb: &Vec<(String, i128)>,
) -> (r: Option<(u8, usize)>)
    ensures
        match r {
            Some((k, p)) => is_newest_snapshot(dict_id@, sync@, legacy@, userdb@, k as int, p as int),
            None => forall|k2: int, p2: int| !#[trigger] is_snapshot_at(dict_id@, sync@, legacy@, userdb@, k2, p2),
        },
{
    let ghost d = dict_id@;
    let ghost sv = sync@;
    let ghost lv = legacy@;
    let ghost uv = userdb@;
    let s0 = latest_index(sync);
    let s1 = newest_of(legacy, 1, dict_id);
    let s2 = newest_of(userdb, 2, dict_id);
    let mut best: Option<(u8, usize)> = match s0 {
        Some(p) => Some((0u8, p)),
        None => None,
    };
    let mut t: i128 = match s0 {
        Some(p) => sync[p],
        None => 0,
    };
    proof {
        assert forall|k2: int, p2: int| #[trigger] is_snapshot_at(d, sv, lv, uv, k2, p2) && k2 < 1 implies (match best {
            Some((k, p)) => snapshot_time_at(sv, lv, uv, k2, p2) <= t && ((k2 < k || (k2 == k && p2 < p)) ==> snapshot_time_at(sv, lv, uv, k2, p2) < t),
            None => false,
        }) by {
            assert(k2 == 0);
            assert(sv[p2] == sync@[p2]);
        }
    }
    match s1 {
        Some(p) => {
            let better = match best {
                Some(_) => t < legacy[p].1,
                None => true,
            };
            if better {
                best = Some((1u8, p));
                t = legacy[p].1;
            }
        },
        None => {},
    }
    proof {
        assert forall|k2: int, p2: int| #[trigger] is_snapshot_at(d, sv, lv, uv, k2, p2) && k2 < 2 implies (match best {
            Some((k, p)) => snapshot_time_at(sv, lv, uv, k2, p2) <= t && ((k2 < k || (k2 == k && p2 < p)) ==> snapshot_time_at(sv, lv, uv, k2, p2) < t),
            None => false,
        }) by {
            if k2 == 1 {
                assert(legacy@[p2] == lv[p2]);
                assert(snapshot_candidate(1, (lv[p2]).0@, d));
            }
        }
    }
    match s2 {
        Some(p) => {
            let better = match best {
                Some(_) => t < userdb[p].1,
                None => true,
            };
            if better {
                best = Some((2u8, p));
                t = userdb[p].1;
            }
        },
        None => {},
    }
    proof {
        assert forall|k2: int, p2: int| #[trigger] is_snapshot_at(d, sv, lv, uv, k2, p2) implies (match best {
            Some((k, p)) => snapshot_time_at(sv, lv, uv, k2, p2) <= t && ((k2 < k || (k2 == k && p2 < p)) ==> snapshot_time_at(sv, lv, uv, k2, p2) < t),
            None => false,
        }) by {
            if k2 == 2 {
                assert(userdb@[p2] == uv[p2]);
                assert(snapshot_candidate(2, (uv[p2]).0@, d));
            }
        }
        match best {
            Some((k, p)) => {
                assert(is_snapshot_at(d, sv, lv, uv, k as int, p as int));
                assert(t == snapshot_time_at(sv, lv, uv, k as int, p as int));
            },
            None => {},
        }
    }
    best
}

/// The snapshots of a dictionary, from the files of the sync directory of
/// this device, of `user_dictionaries/` and of the userdb directory; the
/// refusal of an invalid dictionary id.
pub fn list_snapshots(
    dict_id: &str,
    sync: &Vec<FileMeta>,
    legacy: &Vec<FileMeta>,
    userdb: &Vec<FileMeta>,
) -> (r: Result<Vec<SnapshotInfo>, String>)
    ensures
        match dict_id_error(dict_id@) {
            Some(e) => r matches Err(m) && m@ == e,
            None => r matches Ok(v) && snapshots_view(v@) == snapshots_of(dict_id@, sync@, legacy@, userdb@),
        },
{
    match validate_dict_id(dict_id) {
        Err(m) => Err(m),
        Ok(()) => Ok(gathered_snapshots(dict_id, sync, legacy, userdb)),
    }
}

fn gathered_snapshots(
    dict_id: &str,
    sync: &Vec<FileMeta>,
    legacy: &Vec<FileMeta>,
    userdb: &Vec<FileMeta>,
) -> (r: Vec<SnapshotInfo>)
    ensures
        snapshots_view(r@) == snapshots_of(dict_id@, sync@, legacy@, userdb@),
{
    proof {
        reveal_strlit(".txt");
    }
    let mut all: Vec<SnapshotInfo> = Vec::new();
    let mut i: usize = 0;
    while i < sync.len()
        invariant
            i <= sync@.len(),
            snapshots_view(all@) == sync_snapshots(sync@.take(i as int), dict_id@),
        decreases sync@.len() - i,
    {
        let ghost before = all@;
        assert(sync@.take(i + 1).drop_last() =~= sync@.take(i as int));
        assert(sync@.take(i + 1).last() == sync@[i as int]);
        let f = &sync[i];
        if is_sync_name(f.name.as_str(), dict_id) {
            all.push(snapshot_from(f, f.name.clone(), "sync"));
            assert(snapshots_view(all@) =~= snapshots_view(before).push(all@.last()@));
        }
        i = i + 1;
    }
    assert(sync@.take(i as int) =~= sync@);
    let ghost part1 = snapshots_view(all@);
    let mut i: usize = 0;
    while i < legacy.len()
        invariant
            i <= legacy@.len(),
            snapshots_view(all@) == part1 + legacy_snapshots(legacy@.take(i as int), sync@, dict_id@),
        decreases legacy@.len() - i,
    {
        let ghost before = all@;
        assert(legacy@.take(i + 1).drop_last() =~= legacy@.take(i as int));
        assert(legacy@.take(i + 1).last() == legacy@[i as int]);
        let f = &legacy[i];
        let keep = is_legacy_name(f.name.as_str(), dict_id) && !name_in(&f.name, sync, sync.len(), dict_id, 0)
            && !name_in(&f.name, legacy, i, dict_id, 2);
        proof {
            assert(named_in(f.name@, legacy@.take(i as int), |x: Seq<char>| true) == (exists|j: int|
                0 <= j < i && #[trigger] legacy@[j].name@ == f.name@ && true)) by {
                if named_in(f.name@, legacy@.take(i as int), |x: Seq<char>| true) {
                    let j = choose|j: int| 0 <= j < legacy@.take(i as int).len() && #[trigger] legacy@.take(i as int)[j].name@ == f.name@ && true;
                    assert(legacy@[j].name@ == f.name@);
                }
                if exists|j: int| 0 <= j < i && #[trigger] legacy@[j].name@ == f.name@ && true {
                    let j = choose|j: int| 0 <= j < i && #[trigger] legacy@[j].name@ == f.name@ && true;
                    assert(legacy@.take(i as int)[j].name@ == f.name@);
                }
            }
        }
        if keep {
            all.push(snapshot_from(f, f.name.clone(), "manual"));
            assert(snapshots_view(all@) =~= snapshots_view(before).push(all@.last()@));
        }
        i = i + 1;
    }
    assert(legacy@.take(i as int) =~= legacy@);
    let ghost part2 = snapshots_view(all@);
    let mut i: usize = 0;
    while i < userdb.len()
        invariant
            i <= userdb@.len(),
            snapshots_view(all@) == part2 + userdb_snapshots(userdb@.take(i as int), sync@, legacy@, dict_id@),
        decreases userdb@.len() - i,
    {
        let ghost before = all@;
        assert(userdb@.take(i + 1).drop_last() =~= userdb@.take(i as int));
        assert(userdb@.take(i + 1).last() == userdb@[i as int]);
        let f = &userdb[i];
        let keep = ends_with(f.name.as_str(), ".txt") && !name_in(&f.name, sync, sync.len(), dict_id, 0)
            && !name_in(&f.name, legacy, legacy.len(), dict_id, 1);
        if keep {
            let mut shown = chars_of(dict_id);
            shown.push('/');
            push_all(&mut shown, chars_of(f.name.as_str()).as_slice());
            proof {
                reveal_strlit("/");
            }
            assert(shown@ =~= userdb_snapshot_name(dict_id@, f.name@));
            all.push(snapshot_from(f, string_of(shown.as_slice()), "auto"));
            assert(snapshots_view(all@) =~= snapshots_view(before).push(all@.last()@));
        }
        i = i + 1;
    }
    assert(userdb@.take(i as int) =~= userdb@);
    let ghost everything = snapshots_view(all@);
    let mut keys: Vec<SortKey> = Vec::new();
    let mut j: usize = 0;
    while j < all.len()
        invariant
            j <= all@.len(),
            everything == snapshots_view(all@),
            keys_view(keys@) == everything.take(j as int).map_values(|s: SnapshotModel| KeyModel::Text(s.created_at)),
        decreases all@.len() - j,
    {
        let ghost before = keys@;
        keys.push(SortKey::Text(all[j].created_at.clone()));
        assert(everything[j as int] == all@[j as int]@);
        assert(keys_view(keys@) =~= keys_view(before).push(KeyModel::Text(everything[j as int].created_at)));
        j = j + 1;
        assert(everything.take(j as int).drop_last() =~= everything.take(j - 1));
        assert(keys_view(keys@) =~= everything.take(j as int).map_values(|s: SnapshotModel| KeyModel::Text(s.created_at)));
    }
    assert(everything.take(j as int) =~= everything);
    let ghost unsorted = all@;
    let ghost kv = keys_view(keys@);
    let r = sort_by_keys(all, keys, true);
    proof {
        crate::rime::order::lemma_sorted_map(unsorted, kv, true, |x: SnapshotInfo| x@);
    }
    r
}

/// Why a snapshot file name is refused for deletion.
pub open spec fn snapshot_delete_error(name: Seq<char>) -> bool {
    contains_dot_dot(name) || (name.len() > 0 && (name[0] == '/' || name[0] == '\\'))
}

pub fn validate_snapshot_delete(file_name: &str) -> (r: Result<(), String>)
    ensures
        snapshot_delete_error(file_name@) ==> (r matches Err(m) && m@ == "Invalid snapshot file name"@),
        !snapshot_delete_error(file_name@) ==> r is Ok,
{
    let cs = chars_of(file_name);
    if has_dot_dot(file_name) || (cs.len() > 0 && (cs[0] == '/' || cs[0] == '\\')) {
        return Err("Invalid snapshot file name".to_string());
    }
    Ok(())
}

pub fn validate_snapshot_apply(file_name: &str) -> (r: Result<(), String>)
    ensures
        contains_dot_dot(file_name@) ==> (r matches Err(m) && m@ == "Invalid file name: path traversal not allowed"@),
        !contains_dot_dot(file_name@) ==> r is Ok,
{
    if has_dot_dot(file_name) {
        return Err("Invalid file name: path traversal not allowed".to_string());
    }
    Ok(())
}

/// Whether a snapshot name points into a userdb directory (`dict_id/name`)
/// rather than into `user_dictionaries/`.
pub fn snapshot_in_userdb(file_name: &str) -> (r: bool)
    ensures
        r == (contains_char(file_name@, '/') || contains_char(file_name@, '\\')),
{
    has_char(file_name, '/') || has_char(file_name, '\\')
}

// ---------------------------------------------------------------------------
// An added entry is found
// ---------------------------------------------------------------------------

/// The numeral of an integer: digits, after a minus sign for a negative one.
proof fn lemma_int_text_chars(i: int)
    ensures
        int_text(i).len() > 0,
        '0' <= int_text(i).last() <= '9',
        forall|k: int| 0 <= k < int_text(i).len() ==> int_text(i)[k] != '\t' && int_text(i)[k] != '\n',
{
    let n: nat = if i < 0 { (-i) as nat } else { i as nat };
    lemma_dec_digits_chars(n);
    if i < 0 {
        let t = seq!['-'] + crate::rime::text::dec_digits(n);
        assert(int_text(i) == t);
        assert(t.last() == crate::rime::text::dec_digits(n).last());
        assert forall|k: int| 0 <= k < t.len() implies t[k] != '\t' && t[k] != '\n' by {
            if k > 0 {
                assert(t[k] == crate::rime::text::dec_digits(n)[k - 1]);
            }
        }
    }
}

proof fn lemma_dec_digits_chars(n: nat)
    ensures
        crate::rime::text::dec_digits(n).len() > 0,
        forall|k: int|
            0 <= k < crate::rime::text::dec_digits(n).len() ==> '0' <= #[trigger] crate::rime::text::dec_digits(n)[k] <= '9',
    decreases n,
{
    if n >= 10 {
        lemma_dec_digits_chars(n / 10);
    }
}

/// The line an entry is written as holds that entry, when its word and code
/// are not empty, hold no tab or line break, and the word does not start a
/// comment.
proof fn lemma_entry_line(w: Seq<char>, c: Seq<char>, f: i64)
    requires
        w.len() > 0,
        c.len() > 0,
        w[0] != '#',
        forall|k: int| 0 <= k < w.len() ==> w[k] != '\t' && w[k] != '\n',
        forall|k: int| 0 <= k < c.len() ==> c[k] != '\t' && c[k] != '\n',
    ensures
        line_entry(entry_text(w, c, f)) matches Some(e) && e.word == w && e.code == c,
        entry_text(w, c, f).last() != '\r',
        forall|k: int| 0 <= k < entry_text(w, c, f).len() ==> entry_text(w, c, f)[k] != '\n',
{
    reveal_strlit("\t");
    let t = int_text(f as int);
    lemma_int_text_chars(f as int);
    let tab: Seq<char> = "\t"@;
    let e = entry_text(w, c, f);
    assert(e =~= w + seq!['\t'] + (c + seq!['\t'] + t));
    assert(e.last() == t.last());
    assert(e[0] == w[0]);
    crate::rime::text::lemma_trimmed_nonempty(e);
    crate::rime::text::lemma_split_concat(w, c + seq!['\t'] + t, '\t', Seq::empty());
    crate::rime::text::lemma_split_concat(c, t, '\t', Seq::empty());
    crate::rime::text::lemma_split_free(w, '\t', Seq::empty());
    crate::rime::text::lemma_split_free(c, '\t', Seq::empty());
    crate::rime::text::lemma_split_free(t, '\t', Seq::empty());
    assert(Seq::<char>::empty() + w =~= w);
    assert(Seq::<char>::empty() + c =~= c);
    assert(Seq::<char>::empty() + t =~= t);
    let p = split_on(e, '\t');
    assert(p =~= seq![w, c, t]);
    assert forall|k: int| 0 <= k < e.len() implies e[k] != '\n' by {
        if k < w.len() {
            assert(e[k] == w[k]);
        } else if k == w.len() {
        } else if k < w.len() + 1 + c.len() {
            assert(e[k] == c[k - w.len() - 1]);
        } else if k == w.len() + 1 + c.len() {
        } else {
            assert(e[k] == t[k - w.len() - 2 - c.len()]);
        }
    }
}

/// An added entry is found: after an entry is added (its word and code not
/// empty and free of tabs and line breaks, its word not starting a comment),
/// the snapshot holds an entry with that word and code.
pub proof fn added_entry_is_found(content: Seq<char>, word: Seq<char>, code: Seq<char>, f: i64)
    requires
        added_entry(content, word, code, f) is Ok,
        word.len() > 0,
        code.len() > 0,
        word[0] != '#',
        forall|k: int| 0 <= k < word.len() ==> word[k] != '\t' && word[k] != '\n',
        forall|k: int| 0 <= k < code.len() ==> code[k] != '\t' && code[k] != '\n',
    ensures
        has_entry(added_entry(content, word, code, f)->Ok_0, word, code),
{
    reveal_strlit("\n");
    let e = entry_text(word, code, f);
    lemma_entry_line(word, code, f);
    let added = added_entry(content, word, code, f)->Ok_0;
    let empty = Seq::<char>::empty();
    crate::rime::text::lemma_split_free(e, '\n', empty);
    assert(empty + e =~= e);
    crate::rime::text::lemma_split_concat(e, empty, '\n', empty);
    assert(crate::rime::text::split_from(empty, '\n', empty) == seq![empty]);
    let tail = crate::rime::text::split_from(e + seq!['\n'] + empty, '\n', empty);
    assert(tail =~= seq![e, empty]);
    let p = split_on(added, '\n');
    let front: Seq<Seq<char>> = if content.len() == 0 {
        Seq::empty()
    } else {
        split_on(trim_end(content), '\n')
    };
    if content.len() == 0 {
        assert(added =~= e + seq!['\n'] + empty);
        assert(p == tail);
    } else {
        assert(added =~= trim_end(content) + seq!['\n'] + (e + seq!['\n'] + empty));
        crate::rime::text::lemma_split_concat(trim_end(content), e + seq!['\n'] + empty, '\n', empty);
    }
    assert(p =~= front + seq![e, empty]);
    let ls = lines_of(added);
    assert(p.last() == empty);
    assert(p.drop_last() =~= front.push(e));
    assert(ls == p.drop_last().map_values(|l: Seq<char>| crate::rime::text::strip_cr(l)));
    assert(ls.len() > 0);
    assert(ls.last() == crate::rime::text::strip_cr(e));
    assert(crate::rime::text::strip_cr(e) == e);
    let en = line_entry(e).unwrap();
    assert(entries_in(ls) == entries_in(ls.drop_last()).push(en));
    let es = snapshot_entries_of(added);
    assert(es == entries_in(ls));
    assert(es[es.len() - 1] == en);
}

// ---------------------------------------------------------------------------
// Deleted entries are gone
// ---------------------------------------------------------------------------

/// The lines without their final carriage returns.
pub open spec fn stripped(ls: Seq<Seq<char>>) -> Seq<Seq<char>> {
    ls.map_values(|l: Seq<char>| crate::rime::text::strip_cr(l))
}

/// The text a deletion writes.
pub open spec fn deleted_text(content: Seq<char>, keys: Seq<DictEntryKey>) -> Seq<char> {
    text_of_lines(lines_kept(lines_of(content), |l: Seq<char>| names_listed_entry(l, keys)))
}

/// Some key names the entry's word and code.
pub open spec fn entry_listed(e: EntryModel, keys: Seq<DictEntryKey>) -> bool {
    exists|i: int| 0 <= i < keys.len() && (#[trigger] keys[i]).word@ == e.word && keys[i].code@ == e.code
}

/// No line holds a line break.
pub open spec fn lines_unbroken(ls: Seq<Seq<char>>) -> bool {
    forall|i: int, k: int| 0 <= i < ls.len() && 0 <= k < ls[i].len() ==> ls[i][k] != '\n'
}

proof fn lemma_lines_unbroken(content: Seq<char>)
    ensures
        lines_unbroken(lines_of(content)),
{
    let p = split_on(content, '\n');
    crate::rime::text::lemma_split_pieces_free(content, '\n', Seq::empty());
    crate::rime::text::lemma_split_nonempty(content, '\n', Seq::empty());
    let ls = lines_of(content);
    assert forall|i: int, k: int| 0 <= i < ls.len() && 0 <= k < ls[i].len() implies ls[i][k] != '\n' by {
        if i < p.len() - 1 {
            assert(ls[i] == crate::rime::text::strip_cr(p[i]));
            assert(ls[i][k] == p[i][k]);
        } else {
            assert(ls[i] == p[i]);
        }
    }
}

proof fn lemma_kept_lines(ls: Seq<Seq<char>>, drop: spec_fn(Seq<char>) -> bool)
    requires
        lines_unbroken(ls),
    ensures
        lines_unbroken(lines_kept(ls, drop)),
        forall|i: int| 0 <= i < lines_kept(ls, drop).len() ==> !drop(#[trigger] lines_kept(ls, drop)[i]),
    decreases ls.len(),
{
    if ls.len() > 0 {
        let init = ls.drop_last();
        assert forall|i: int, k: int| 0 <= i < init.len() && 0 <= k < init[i].len() implies init[i][k] != '\n' by {
            assert(init[i] == ls[i]);
        }
        lemma_kept_lines(init, drop);
        let r0 = lines_kept(init, drop);
        if !drop(ls.last()) {
            let r = r0.push(ls.last());
            assert(lines_kept(ls, drop) == r);
            assert forall|i: int, k: int| 0 <= i < r.len() && 0 <= k < r[i].len() implies r[i][k] != '\n' by {
                if i < r0.len() {
                    assert(r[i] == r0[i]);
                } else {
                    assert(r[i] == ls[ls.len() - 1]);
                }
            }
            assert forall|i: int| 0 <= i < r.len() implies !drop(#[trigger] r[i]) by {
                if i < r0.len() {
                    assert(r[i] == r0[i]);
                }
            }
        }
    }
}

/// Reading the lines of a text written from lines gives them back (a line's
/// final carriage return is read as part of the line break).
proof fn lemma_lines_of_text(ls: Seq<Seq<char>>)
    requires
        lines_unbroken(ls),
    ensures
        lines_of(text_of_lines(ls)) == if ls.len() == 0 {
            seq![Seq::<char>::empty()]
        } else {
            stripped(ls)
        },
{
    reveal_strlit("\n");
    let e = Seq::<char>::empty();
    let nl: Seq<char> = "\n"@;
    assert(nl =~= seq!['\n']);
    let t = text_of_lines(ls);
    assert(t =~= joined(ls, seq!['\n']) + seq!['\n'] + e);
    crate::rime::text::lemma_split_concat(joined(ls, seq!['\n']), e, '\n', e);
    assert(crate::rime::text::split_from(e, '\n', e) == seq![e]);
    let p = split_on(t, '\n');
    if ls.len() == 0 {
        assert(joined(ls, seq!['\n']) == e);
        assert(p =~= seq![e, e]);
        assert(p.drop_last().map_values(|l: Seq<char>| crate::rime::text::strip_cr(l)) =~= seq![e]);
    } else {
        crate::rime::text::lemma_split_joined(ls, '\n');
        assert(p =~= ls + seq![e]);
        assert(p.drop_last() =~= ls);
    }
}

/// A line read without its final carriage return holds the entry it held,
/// with the same word and code.
proof fn lemma_strip_entry(l: Seq<char>)
    ensures
        line_entry(crate::rime::text::strip_cr(l)) matches Some(e2) ==> (line_entry(l) matches Some(e1)
            && e1.word == e2.word && e1.code == e2.code),
{
    if l.len() > 0 && l.last() == '\r' {
        let m = l.drop_last();
        assert(l =~= m.push('\r'));
        if line_entry(m) is Some {
            crate::rime::text::lemma_trimmed_blank(m);
            crate::rime::text::lemma_trimmed_blank(l);
            let k = choose|k: int| 0 <= k < m.len() && !is_white(m[k]);
            assert(l[k] == m[k]);
            assert(l[0] == m[0]);
            crate::rime::text::lemma_split_push(m, '\r', '\t', Seq::empty());
            let p2 = split_on(m, '\t');
            let p1 = split_on(l, '\t');
            assert(p1 == p2.drop_last().push(p2.last().push('\r')));
            assert(p1[0] == p2[0]);
            assert(p1[1] == p2[1]);
        }
    }
}

proof fn lemma_entries_unlisted(ls: Seq<Seq<char>>, keys: Seq<DictEntryKey>)
    requires
        forall|i: int| 0 <= i < ls.len() ==> !names_listed_entry(#[trigger] ls[i], keys),
    ensures
        forall|i: int|
            0 <= i < entries_in(stripped(ls)).len() ==> !entry_listed(#[trigger] entries_in(stripped(ls))[i], keys),
    decreases ls.len(),
{
    if ls.len() > 0 {
        let init = ls.drop_last();
        assert forall|i: int| 0 <= i < init.len() implies !names_listed_entry(#[trigger] init[i], keys) by {
            assert(init[i] == ls[i]);
        }
        lemma_entries_unlisted(init, keys);
        let ms = stripped(ls);
        let mi = stripped(init);
        assert(ms.drop_last() =~= mi);
        assert(ms.last() == crate::rime::text::strip_cr(ls.last()));
        lemma_strip_entry(ls.last());
        assert(!names_listed_entry(ls[ls.len() - 1], keys));
        let r0 = entries_in(mi);
        match line_entry(ms.last()) {
            Some(e2) => {
                let r = r0.push(e2);
                assert(entries_in(ms) == r);
                assert forall|i: int| 0 <= i < r.len() implies !entry_listed(#[trigger] r[i], keys) by {
                    if i < r0.len() {
                        assert(r[i] == r0[i]);
                    } else {
                        let e1 = line_entry(ls.last()).unwrap();
                        if entry_listed(e2, keys) {
                            let j = choose|j: int| 0 <= j < keys.len() && (#[trigger] keys[j]).word@ == e2.word && keys[j].code@ == e2.code;
                            assert(keys[j].word@ == e1.word && keys[j].code@ == e1.code);
                        }
                    }
                }
            },
            None => {
                assert(entries_in(ms) == r0);
            },
        }
    }
}

/// Deleted entries are gone: reading the snapshot written by a deletion
/// finds no entry that one of the keys names.
pub proof fn deleted_entries_are_gone(content: Seq<char>, keys: Seq<DictEntryKey>)
    ensures
        forall|i: int|
            0 <= i < snapshot_entries_of(deleted_text(content, keys)).len() ==> !entry_listed(
                #[trigger] snapshot_entries_of(deleted_text(content, keys))[i],
                keys,
            ),
{
    let drop = |l: Seq<char>| names_listed_entry(l, keys);
    lemma_lines_unbroken(content);
    lemma_kept_lines(lines_of(content), drop);
    let kept = lines_kept(lines_of(content), drop);
    lemma_lines_of_text(kept);
    if kept.len() == 0 {
        let e = Seq::<char>::empty();
        crate::rime::text::lemma_trimmed_blank(e);
        assert(line_entry(e) is None);
        assert(seq![e].drop_last() =~= Seq::<Seq<char>>::empty());
        assert(entries_in(seq![e]) == entries_in(Seq::<Seq<char>>::empty()));
    } else {
        assert forall|i: int| 0 <= i < kept.len() implies !names_listed_entry(#[trigger] kept[i], keys) by {
            assert(!drop(kept[i]));
        }
        lemma_entries_unlisted(kept, keys);
    }
}

// ---------------------------------------------------------------------------
// An updated entry reads back with its new frequency
// ---------------------------------------------------------------------------

proof fn lemma_dec_digits_value(n: nat)
    ensures
        crate::rime::text::all_digits(crate::rime::text::dec_digits(n)),
        crate::rime::text::digits_value(crate::rime::text::dec_digits(n)) == n,
    decreases n,
{
    let d = crate::rime::text::dec_digits(n);
    if n < 10 {
        assert(d == seq![crate::rime::text::digit_char(n as int)]);
        assert(d.drop_last() =~= Seq::<char>::empty());
        assert(crate::rime::text::digit_char(n as int) as int == '0' as int + n);
        assert(d.last() as int - '0' as int == n);
        assert(crate::rime::text::digits_value(d.drop_last()) == 0);
    } else {
        lemma_dec_digits_value(n / 10);
        let h = crate::rime::text::dec_digits(n / 10);
        assert(d == h.push(crate::rime::text::digit_char((n % 10) as int)));
        assert(d.drop_last() =~= h);
        assert(n == (n / 10) * 10 + n % 10) by (nonlinear_arith);
        assert(crate::rime::text::digit_char((n % 10) as int) as int == '0' as int + n % 10);
        assert(d.last() as int - '0' as int == n % 10);
        assert forall|i: int| 0 <= i < d.len() implies crate::rime::text::is_digit(#[trigger] d[i]) by {
            if i < h.len() {
                assert(d[i] == h[i]);
            }
        }
    }
}

/// A numeral reads back as its number.
proof fn lemma_parse_int_text(f: i64)
    ensures
        crate::rime::text::parse_i64(int_text(f as int)) == Some(f),
{
    let n: nat = if f < 0 { (-(f as int)) as nat } else { f as nat };
    lemma_dec_digits_value(n);
    lemma_dec_digits_chars(n);
    let d = crate::rime::text::dec_digits(n);
    if f < 0 {
        let t = seq!['-'] + d;
        assert(int_text(f as int) == t);
        assert(t.drop_first() =~= d);
    } else {
        assert(int_text(f as int) == d);
        assert(crate::rime::text::is_digit(d[0]));
    }
}

proof fn lemma_count_text(f: i64)
    ensures
        count_text(f).len() > 2,
        count_text(f)[0] == 'c',
        has_prefix(count_text(f), "c="@),
        crate::rime::text::parse_i64(count_text(f).skip(2)) == Some(f),
        forall|k: int| 0 <= k < count_text(f).len() ==> !is_white(#[trigger] count_text(f)[k]),
        count_text(f).last() != '\r',
{
    reveal_strlit("c=");
    lemma_parse_int_text(f);
    lemma_int_text_chars(f as int);
    let n: nat = if f < 0 { (-(f as int)) as nat } else { f as nat };
    lemma_dec_digits_chars(n);
    let t = int_text(f as int);
    let ct = count_text(f);
    assert(ct.skip(2) =~= t);
    assert(ct.take(2) =~= "c="@);
    assert forall|k: int| 0 <= k < ct.len() implies !is_white(#[trigger] ct[k]) by {
        if k >= 2 {
            assert(ct[k] == t[k - 2]);
            if f < 0 && k == 2 {
                assert(t[0] == '-');
            } else if f < 0 {
                assert(t[k - 2] == crate::rime::text::dec_digits(n)[k - 3]);
            } else {
                assert(t[k - 2] == crate::rime::text::dec_digits(n)[k - 2]);
            }
        }
    }
}

/// The commit count of words whose `c=` words are all `count_text(f)`, one
/// at least.
proof fn lemma_count_field_set(ws: Seq<Seq<char>>, f: i64)
    requires
        exists|i: int| 0 <= i < ws.len() && has_prefix(#[trigger] ws[i], "c="@),
        forall|i: int| 0 <= i < ws.len() && has_prefix(#[trigger] ws[i], "c="@) ==> ws[i] == count_text(f),
    ensures
        count_field(ws) == Some(f),
    decreases ws.len(),
{
    lemma_count_text(f);
    let w = ws.last();
    if has_prefix(w, "c="@) {
        assert(w == ws[ws.len() - 1]);
    } else {
        let init = ws.drop_last();
        let i = choose|i: int| 0 <= i < ws.len() && has_prefix(#[trigger] ws[i], "c="@);
        assert(i != ws.len() - 1);
        assert(init[i] == ws[i]);
        assert forall|j: int| 0 <= j < init.len() && has_prefix(#[trigger] init[j], "c="@) implies init[j] == count_text(f) by {
            assert(init[j] == ws[j]);
        }
        lemma_count_field_set(init, f);
    }
}

/// A place in the joined text where the `j`-th character of the `i`-th
/// piece stands.
proof fn joined_index(ws: Seq<Seq<char>>, sep: Seq<char>, i: int, j: int) -> (k: int)
    requires
        0 <= i < ws.len(),
        0 <= j < ws[i].len(),
    ensures
        0 <= k < joined(ws, sep).len(),
        joined(ws, sep)[k] == ws[i][j],
    decreases ws.len(),
{
    if ws.len() == 1 {
        j
    } else {
        let init = ws.drop_last();
        let a = joined(init, sep);
        assert(joined(ws, sep) == a + sep + ws.last());
        if i == ws.len() - 1 {
            a.len() + sep.len() + j
        } else {
            assert(init[i] == ws[i]);
            joined_index(init, sep, i, j)
        }
    }
}

/// Pieces without white space joined by spaces hold no white space but
/// those spaces.
proof fn lemma_joined_chars(ws: Seq<Seq<char>>, sep: Seq<char>)
    requires
        forall|i: int, k: int| 0 <= i < ws.len() && 0 <= k < ws[i].len() ==> !is_white(ws[i][k]),
        forall|k: int| 0 <= k < sep.len() ==> sep[k] == ' ',
    ensures
        forall|k: int|
            0 <= k < joined(ws, sep).len() ==> joined(ws, sep)[k] == ' ' || !is_white(
                #[trigger] joined(ws, sep)[k],
            ),
    decreases ws.len(),
{
    if ws.len() == 1 {
        assert(!is_white(ws[0][0]) || ws[0].len() == 0);
    } else if ws.len() > 1 {
        let init = ws.drop_last();
        assert forall|i: int, k: int| 0 <= i < init.len() && 0 <= k < init[i].len() implies !is_white(init[i][k]) by {
            assert(init[i] == ws[i]);
        }
        lemma_joined_chars(init, sep);
        let a = joined(init, sep);
        let l = ws.last();
        let t = a + sep + l;
        assert(joined(ws, sep) == t);
        assert forall|k: int| 0 <= k < t.len() implies t[k] == ' ' || !is_white(#[trigger] t[k]) by {
            if k < a.len() {
                assert(t[k] == a[k]);
            } else if k < a.len() + sep.len() {
                assert(t[k] == sep[k - a.len()]);
            } else {
                assert(t[k] == l[k - a.len() - sep.len()]);
                assert(l == ws[ws.len() - 1]);
            }
        }
    }
}

/// The updated column reads as `f`, holds no tab, line break or carriage
/// return at its end, and is not blank.
proof fn lemma_updated_column(t: Seq<char>, f: i64)
    ensures
        column_frequency(updated_column(t, f)) == f,
        forall|k: int|
            0 <= k < updated_column(t, f).len() ==> updated_column(t, f)[k] != '\t' && updated_column(t, f)[k] != '\n',
        updated_column(t, f).len() > 0,
        updated_column(t, f).last() != '\r',
        exists|k: int| 0 <= k < updated_column(t, f).len() && !is_white(#[trigger] updated_column(t, f)[k]),
{
    reveal_strlit("c=");
    reveal_strlit(" ");
    lemma_count_text(f);
    let ct = count_text(f);
    let ws = crate::rime::text::words_of(t);
    let col = updated_column(t, f);
    assert(!is_white(ct[0]));
    if exists|i: int| 0 <= i < ws.len() && has_prefix(#[trigger] ws[i], "c="@) {
        let ws2 = ws.map_values(|w: Seq<char>| if has_prefix(w, "c="@) { ct } else { w });
        assert(col == joined(ws2, " "@));
        assert(" "@ =~= seq![' ']);
        crate::rime::text::lemma_words_clean(t, Seq::empty());
        assert forall|i: int| 0 <= i < ws2.len() implies (#[trigger] ws2[i]).len() > 0 by {
            assert(ws[i].len() > 0);
        }
        assert forall|i: int, k: int| 0 <= i < ws2.len() && 0 <= k < ws2[i].len() implies !is_white(ws2[i][k]) by {
            if has_prefix(ws[i], "c="@) {
                assert(ws2[i] == ct);
                assert(!is_white(ct[k]));
            } else {
                assert(ws2[i] == ws[i]);
            }
        }
        let i0 = choose|i: int| 0 <= i < ws.len() && has_prefix(#[trigger] ws[i], "c="@);
        assert(ws2[i0] == ct);
        crate::rime::text::lemma_words_joined(ws2);
        assert(has_prefix(ws2[i0], "c="@));
        assert forall|i: int| 0 <= i < ws2.len() && has_prefix(#[trigger] ws2[i], "c="@) implies ws2[i] == ct by {
            if !has_prefix(ws[i], "c="@) {
                assert(ws2[i] == ws[i]);
            }
        }
        lemma_count_field_set(ws2, f);
        lemma_joined_chars(ws2, " "@);
        // A column with a `c` is no number.
        assert(ct.len() > 0);
        let k0 = joined_index(ws2, " "@, i0, 0);
        assert(col[k0] == 'c');
        assert(!crate::rime::text::is_digit(col[k0]));
        if col.len() > 0 && (col[0] == '-' || col[0] == '+') {
            assert(k0 != 0);
            assert(crate::rime::text::digits_part(col)[k0 - 1] == col[k0]);
        } else {
            assert(crate::rime::text::digits_part(col) == col);
        }
        assert(crate::rime::text::parse_i64(col) is None);
        assert(!is_white(col[k0]));
    } else {
        assert(col == ct);
        crate::rime::text::lemma_words_single(ct, Seq::empty());
        assert(Seq::<char>::empty() + ct =~= ct);
        assert(crate::rime::text::words_of(ct) == seq![ct]);
        assert(seq![ct].drop_last() =~= Seq::<Seq<char>>::empty());
        assert(crate::rime::text::digits_part(ct) == ct);
        assert(!crate::rime::text::is_digit(ct[0]));
        assert(crate::rime::text::parse_i64(col) is None);
        assert(!is_white(col[0]));
    }
}


/// The joined text starts with the first piece.
proof fn lemma_joined_head(q: Seq<Seq<char>>, sep: Seq<char>, j: int)
    requires
        q.len() > 0,
        0 <= j < q[0].len(),
    ensures
        j < joined(q, sep).len(),
        joined(q, sep)[j] == q[0][j],
    decreases q.len(),
{
    if q.len() > 1 {
        let init = q.drop_last();
        assert(init[0] == q[0]);
        lemma_joined_head(init, sep, j);
        assert(joined(q, sep) == joined(init, sep) + sep + q.last());
    }
}

/// Columns joined by tabs, the first two not empty and the first not
/// starting a comment, the third holding a non-space, are read as the entry
/// those columns give.
proof fn lemma_tab_line_plain(q: Seq<Seq<char>>)
    requires
        q.len() >= 3,
        q[0].len() > 0,
        q[0][0] != '#',
        q[1].len() > 0,
        forall|i: int, k: int| 0 <= i < q.len() && 0 <= k < q[i].len() ==> q[i][k] != '\t',
        exists|k: int| 0 <= k < q[2].len() && !is_white(#[trigger] q[2][k]),
    ensures
        line_entry(joined(q, "\t"@)) matches Some(e) && e.word == q[0] && e.code == q[1] && e.frequency
            == column_frequency(q[2]),
{
    reveal_strlit("\t");
    let tab: Seq<char> = "\t"@;
    assert(tab =~= seq!['\t']);
    let u = joined(q, tab);
    crate::rime::text::lemma_split_joined(q, '\t');
    assert(split_on(u, '\t') == q);
    lemma_joined_head(q, tab, 0);
    let k2 = choose|k: int| 0 <= k < q[2].len() && !is_white(#[trigger] q[2][k]);
    let ku = joined_index(q, tab, 2, k2);
    crate::rime::text::lemma_trimmed_blank(u);
    assert(!is_white(u[ku]));
    assert(is_entry_line(u));
}

/// The same, for the line as it is read back: without a final carriage
/// return, which can only stand in a column after the third.
proof fn lemma_tab_line(q: Seq<Seq<char>>)
    requires
        q.len() >= 3,
        q[0].len() > 0,
        q[0][0] != '#',
        q[1].len() > 0,
        forall|i: int, k: int| 0 <= i < q.len() && 0 <= k < q[i].len() ==> q[i][k] != '\t',
        exists|k: int| 0 <= k < q[2].len() && !is_white(#[trigger] q[2][k]),
        q[2].last() != '\r',
    ensures
        line_entry(crate::rime::text::strip_cr(joined(q, "\t"@))) matches Some(e) && e.word == q[0] && e.code
            == q[1] && e.frequency == column_frequency(q[2]),
{
    reveal_strlit("\t");
    let tab: Seq<char> = "\t"@;
    let u = joined(q, tab);
    let init = q.drop_last();
    let l = q.last();
    assert(u == joined(init, tab) + tab + l);
    if u.len() > 0 && u.last() == '\r' {
        assert(l.len() > 0);
        assert(u.last() == l.last());
        assert(q.len() > 3);
        let q2 = q.update(q.len() - 1, l.drop_last());
        assert(q2.drop_last() =~= init);
        assert(joined(q2, tab) == joined(init, tab) + tab + l.drop_last());
        assert(u.drop_last() =~= joined(q2, tab));
        assert forall|i: int, k: int| 0 <= i < q2.len() && 0 <= k < q2[i].len() implies q2[i][k] != '\t' by {
            if i == q.len() - 1 {
                assert(q2[i][k] == l[k]);
                assert(l == q[q.len() - 1]);
            } else {
                assert(q2[i] == q[i]);
            }
        }
        assert(q2[0] == q[0] && q2[1] == q[1] && q2[2] == q[2]);
        lemma_tab_line_plain(q2);
    } else {
        lemma_tab_line_plain(q);
    }
}

/// An updated line holds no line break, and read back (without a final
/// carriage return) it gives the entry `word`/`code` only with frequency `f`.
proof fn lemma_updated_line(l: Seq<char>, word: Seq<char>, code: Seq<char>, f: i64)
    requires
        forall|k: int| 0 <= k < l.len() ==> l[k] != '\n',
    ensures
        forall|k: int|
            0 <= k < updated_line(l, word, code, f).len() ==> #[trigger] updated_line(l, word, code, f)[k] != '\n',
        line_entry(crate::rime::text::strip_cr(updated_line(l, word, code, f))) matches Some(e) ==> (e.word
            == word && e.code == code ==> e.frequency == f),
        (line_entry(l) matches Some(e) && e.word == word && e.code == code) ==> (line_entry(
            crate::rime::text::strip_cr(updated_line(l, word, code, f)),
        ) matches Some(e2) && e2.word == word && e2.code == code),
{
    reveal_strlit("\t");
    lemma_strip_entry(l);
    match line_entry(l) {
        Some(e) => {
            if e.word == word && e.code == code {
                let tab: Seq<char> = "\t"@;
                assert(tab =~= seq!['\t']);
                let p = split_on(l, '\t');
                let col = updated_column(p[2], f);
                lemma_updated_column(p[2], f);
                let q = p.update(2, col);
                crate::rime::text::lemma_split_pieces_free(l, '\t', Seq::empty());
                assert forall|i: int, k: int| 0 <= i < q.len() && 0 <= k < q[i].len() implies q[i][k] != '\t' by {
                    if i != 2 {
                        assert(q[i] == p[i]);
                    }
                }
                assert(l[0] != '#');
                assert(l[0] != '\t') by {
                    if l[0] == '\t' {
                        assert(p == seq![Seq::<char>::empty()] + split_on(l.drop_first(), '\t'));
                    }
                }
                assert(p == crate::rime::text::split_from(l.drop_first(), '\t', seq![l[0]]));
                lemma_first_piece_head(l.drop_first(), '\t', seq![l[0]]);
                lemma_split_pieces_avoid(l, '\t', Seq::empty(), '\n');
                assert(q[0] == p[0] && q[1] == p[1] && q[2] == col);
                assert(col.last() == col[col.len() - 1]);
                lemma_tab_line(q);
                let u = joined(q, tab);
                assert(u == updated_line(l, word, code, f));
                assert forall|i: int, k: int| 0 <= i < q.len() && 0 <= k < q[i].len() implies q[i][k] != '\n' by {
                    if i != 2 {
                        assert(q[i] == p[i]);
                    }
                }
                lemma_joined_avoids(q, tab, '\n');
            }
        },
        None => {},
    }
}


/// The first piece of a split begins with the piece already read.
proof fn lemma_first_piece_head(s: Seq<char>, sep: char, cur: Seq<char>)
    requires
        cur.len() > 0,
    ensures
        crate::rime::text::split_from(s, sep, cur)[0].len() > 0,
        crate::rime::text::split_from(s, sep, cur)[0][0] == cur[0],
    decreases s.len(),
{
    if s.len() > 0 && s[0] != sep {
        lemma_first_piece_head(s.drop_first(), sep, cur.push(s[0]));
    }
}

/// The pieces of a split hold no character that the text does not hold.
proof fn lemma_split_pieces_avoid(s: Seq<char>, sep: char, cur: Seq<char>, c: char)
    requires
        forall|k: int| 0 <= k < s.len() ==> s[k] != c,
        forall|k: int| 0 <= k < cur.len() ==> cur[k] != c,
    ensures
        forall|i: int, k: int|
            0 <= i < crate::rime::text::split_from(s, sep, cur).len() && 0 <= k
                < crate::rime::text::split_from(s, sep, cur)[i].len() ==> crate::rime::text::split_from(s, sep, cur)[i][k]
                != c,
    decreases s.len(),
{
    let r = crate::rime::text::split_from(s, sep, cur);
    if s.len() == 0 {
        assert(r == seq![cur]);
        assert forall|i: int, k: int| 0 <= i < r.len() && 0 <= k < r[i].len() implies r[i][k] != c by {
            assert(r[i] == cur);
        }
    } else if s[0] == sep {
        lemma_split_pieces_avoid(s.drop_first(), sep, Seq::empty(), c);
        let rest = crate::rime::text::split_from(s.drop_first(), sep, Seq::empty());
        assert(r == seq![cur] + rest);
        assert forall|i: int, k: int| 0 <= i < r.len() && 0 <= k < r[i].len() implies r[i][k] != c by {
            if i > 0 {
                assert(r[i] == rest[i - 1]);
            } else {
                assert(r[i] == cur);
            }
        }
    } else {
        let c2 = cur.push(s[0]);
        assert forall|k: int| 0 <= k < c2.len() implies c2[k] != c by {
            if k < cur.len() {
                assert(c2[k] == cur[k]);
            }
        }
        assert forall|k: int| 0 <= k < s.drop_first().len() implies s.drop_first()[k] != c by {
            assert(s.drop_first()[k] == s[k + 1]);
        }
        lemma_split_pieces_avoid(s.drop_first(), sep, c2, c);
        assert(r == crate::rime::text::split_from(s.drop_first(), sep, c2));
    }
}

/// Pieces and a separator without a character join to a text without it.
proof fn lemma_joined_avoids(ws: Seq<Seq<char>>, sep: Seq<char>, c: char)
    requires
        forall|i: int, k: int| 0 <= i < ws.len() && 0 <= k < ws[i].len() ==> ws[i][k] != c,
        forall|k: int| 0 <= k < sep.len() ==> sep[k] != c,
    ensures
        forall|k: int| 0 <= k < joined(ws, sep).len() ==> #[trigger] joined(ws, sep)[k] != c,
    decreases ws.len(),
{
    if ws.len() == 1 {
        assert(joined(ws, sep) == ws[0]);
    } else if ws.len() > 1 {
        let init = ws.drop_last();
        assert forall|i: int, k: int| 0 <= i < init.len() && 0 <= k < init[i].len() implies init[i][k] != c by {
            assert(init[i] == ws[i]);
        }
        lemma_joined_avoids(init, sep, c);
        let a = joined(init, sep);
        let l = ws.last();
        let t = a + sep + l;
        assert(joined(ws, sep) == t);
        assert forall|k: int| 0 <= k < t.len() implies #[trigger] t[k] != c by {
            if k < a.len() {
                assert(t[k] == a[k]);
            } else if k < a.len() + sep.len() {
                assert(t[k] == sep[k - a.len()]);
            } else {
                assert(t[k] == l[k - a.len() - sep.len()]);
                assert(l == ws[ws.len() - 1]);
            }
        }
    }
}

proof fn lemma_updated_entries(ls: Seq<Seq<char>>, word: Seq<char>, code: Seq<char>, f: i64)
    requires
        lines_unbroken(ls),
    ensures
        lines_unbroken(updated_lines(ls, word, code, f)),
        forall|i: int|
            0 <= i < entries_in(stripped(updated_lines(ls, word, code, f))).len() && (#[trigger] entries_in(
                stripped(updated_lines(ls, word, code, f)),
            )[i]).word == word && entries_in(stripped(updated_lines(ls, word, code, f)))[i].code == code
                ==> entries_in(stripped(updated_lines(ls, word, code, f)))[i].frequency == f,
        lists_entry(entries_in(ls), word, code) ==> lists_entry(
            entries_in(stripped(updated_lines(ls, word, code, f))),
            word,
            code,
        ),
    decreases ls.len(),
{
    let us = updated_lines(ls, word, code, f);
    if ls.len() > 0 {
        let init = ls.drop_last();
        assert forall|i: int, k: int| 0 <= i < init.len() && 0 <= k < init[i].len() implies init[i][k] != '\n' by {
            assert(init[i] == ls[i]);
        }
        lemma_updated_entries(init, word, code, f);
        let ui = updated_lines(init, word, code, f);
        assert(us.drop_last() =~= ui);
        let l = ls.last();
        assert(l == ls[ls.len() - 1]);
        lemma_updated_line(l, word, code, f);
        let u = updated_line(l, word, code, f);
        assert(us.last() == u);
        assert forall|i: int, k: int| 0 <= i < us.len() && 0 <= k < us[i].len() implies us[i][k] != '\n' by {
            if i < ui.len() {
                assert(us[i] == ui[i]);
            } else {
                assert(us[i] == u);
            }
        }
        let ms = stripped(us);
        assert(ms.drop_last() =~= stripped(ui));
        assert(ms.last() == crate::rime::text::strip_cr(u));
        let r0 = entries_in(stripped(ui));
        let s0 = entries_in(init);
        let src = entries_in(ls);
        if lists_entry(src, word, code) {
            let j = choose|j: int| 0 <= j < src.len() && (#[trigger] src[j]).word == word && src[j].code == code;
            match line_entry(l) {
                Some(e1) => {
                    assert(src == s0.push(e1));
                    if j < s0.len() {
                        assert(src[j] == s0[j]);
                        assert(lists_entry(s0, word, code));
                    }
                },
                None => {
                    assert(src == s0);
                    assert(lists_entry(s0, word, code));
                },
            }
        }
        match line_entry(ms.last()) {
            Some(e) => {
                let r = r0.push(e);
                assert(entries_in(ms) == r);
                assert forall|i: int| 0 <= i < r.len() && (#[trigger] r[i]).word == word && r[i].code == code implies r[i].frequency == f by {
                    if i < r0.len() {
                        assert(r[i] == r0[i]);
                    }
                }
                if lists_entry(r0, word, code) {
                    let j = choose|j: int| 0 <= j < r0.len() && (#[trigger] r0[j]).word == word && r0[j].code == code;
                    assert(r[j] == r0[j]);
                }
                if e.word == word && e.code == code {
                    assert(r[r.len() - 1] == e);
                }
            },
            None => {
                assert(entries_in(ms) == r0);
            },
        }
    }
}

/// Some entry has the word and code.
pub open spec fn lists_entry(es: Seq<EntryModel>, word: Seq<char>, code: Seq<char>) -> bool {
    exists|i: int| 0 <= i < es.len() && (#[trigger] es[i]).word == word && es[i].code == code
}

/// An updated entry reads back with its new frequency: in the snapshot
/// written by an update, every entry with that word and code has the
/// frequency given, and an entry the snapshot held is still there.
pub proof fn updated_entry_reads_back(content: Seq<char>, word: Seq<char>, code: Seq<char>, f: i64)
    ensures
        has_entry(content, word, code) ==> has_entry(updated_text(content, word, code, f), word, code),
        forall|i: int|
            0 <= i < snapshot_entries_of(updated_text(content, word, code, f)).len() && (
            #[trigger] snapshot_entries_of(updated_text(content, word, code, f))[i]).word == word
                && snapshot_entries_of(updated_text(content, word, code, f))[i].code == code
                ==> snapshot_entries_of(updated_text(content, word, code, f))[i].frequency == f,
{
    lemma_lines_unbroken(content);
    let us = updated_lines(lines_of(content), word, code, f);
    lemma_updated_entries(lines_of(content), word, code, f);
    lemma_lines_of_text(us);
    if us.len() == 0 {
        let e = Seq::<char>::empty();
        crate::rime::text::lemma_trimmed_blank(e);
        assert(line_entry(e) is None);
        assert(seq![e].drop_last() =~= Seq::<Seq<char>>::empty());
        assert(entries_in(seq![e]) == entries_in(Seq::<Seq<char>>::empty()));
    }
    if has_entry(content, word, code) {
        let src = snapshot_entries_of(content);
        let i = choose|i: int| 0 <= i < src.len() && (#[trigger] src[i]).word == word && src[i].code == code;
        assert(lists_entry(entries_in(lines_of(content)), word, code));
        let out = snapshot_entries_of(updated_text(content, word, code, f));
        assert(lists_entry(out, word, code));
        let j = choose|j: int| 0 <= j < out.len() && (#[trigger] out[j]).word == word && out[j].code == code;
        assert(out[j].word == word);
    }
}

// ---------------------------------------------------------------------------
// No entry below the threshold is left
// ---------------------------------------------------------------------------

proof fn lemma_kept_keep(ls: Seq<Seq<char>>, drop: spec_fn(Seq<char>) -> bool, keep: spec_fn(Seq<char>) -> bool)
    requires
        forall|i: int| 0 <= i < ls.len() ==> keep(#[trigger] ls[i]),
    ensures
        forall|i: int| 0 <= i < lines_kept(ls, drop).len() ==> keep(#[trigger] lines_kept(ls, drop)[i]),
    decreases ls.len(),
{
    if ls.len() > 0 {
        let init = ls.drop_last();
        assert forall|i: int| 0 <= i < init.len() implies keep(#[trigger] init[i]) by {
            assert(init[i] == ls[i]);
        }
        lemma_kept_keep(init, drop, keep);
        let r0 = lines_kept(init, drop);
        if !drop(ls.last()) {
            let r = r0.push(ls.last());
            assert(lines_kept(ls, drop) == r);
            assert forall|i: int| 0 <= i < r.len() implies keep(#[trigger] r[i]) by {
                if i < r0.len() {
                    assert(r[i] == r0[i]);
                } else {
                    assert(r[i] == ls[ls.len() - 1]);
                }
            }
        }
    }
}

proof fn lemma_entries_at_least(ls: Seq<Seq<char>>, threshold: i64)
    requires
        forall|i: int| 0 <= i < ls.len() ==> !is_low_entry(#[trigger] ls[i], threshold),
    ensures
        forall|j: int| 0 <= j < entries_in(ls).len() ==> (#[trigger] entries_in(ls)[j]).frequency >= threshold,
    decreases ls.len(),
{
    if ls.len() > 0 {
        let init = ls.drop_last();
        assert forall|i: int| 0 <= i < init.len() implies !is_low_entry(#[trigger] init[i], threshold) by {
            assert(init[i] == ls[i]);
        }
        lemma_entries_at_least(init, threshold);
        let r0 = entries_in(init);
        assert(!is_low_entry(ls[ls.len() - 1], threshold));
        match line_entry(ls.last()) {
            Some(e) => {
                let r = r0.push(e);
                assert(entries_in(ls) == r);
                assert forall|j: int| 0 <= j < r.len() implies (#[trigger] r[j]).frequency >= threshold by {
                    if j < r0.len() {
                        assert(r[j] == r0[j]);
                    }
                }
            },
            None => {},
        }
    }
}

/// No entry below the threshold is left: reading the snapshot written by a
/// deletion of the entries below `threshold` finds none, when no line of
/// the snapshot ends in a carriage return once its line break is taken off
/// (such a line is judged with the carriage return and read back without
/// it).
pub proof fn low_entries_are_gone(content: Seq<char>, threshold: i64)
    requires
        forall|i: int|
            0 <= i < lines_of(content).len() ==> crate::rime::text::strip_cr(#[trigger] lines_of(content)[i])
                == lines_of(content)[i],
    ensures
        forall|j: int|
            0 <= j < snapshot_entries_of(low_deleted_text(content, threshold)).len() ==> (#[trigger] snapshot_entries_of(
                low_deleted_text(content, threshold),
            )[j]).frequency >= threshold,
{
    let drop = |l: Seq<char>| is_low_entry(l, threshold);
    let keep = |l: Seq<char>| crate::rime::text::strip_cr(l) == l;
    let ls = lines_of(content);
    lemma_lines_unbroken(content);
    lemma_kept_lines(ls, drop);
    assert forall|i: int| 0 <= i < ls.len() implies keep(#[trigger] ls[i]) by {}
    lemma_kept_keep(ls, drop, keep);
    let kept = lines_kept(ls, drop);
    lemma_lines_of_text(kept);
    if kept.len() == 0 {
        let e = Seq::<char>::empty();
        crate::rime::text::lemma_trimmed_blank(e);
        assert(line_entry(e) is None);
        assert(seq![e].drop_last() =~= Seq::<Seq<char>>::empty());
        assert(entries_in(seq![e]) == entries_in(Seq::<Seq<char>>::empty()));
    } else {
        assert(stripped(kept) =~= kept) by {
            assert forall|i: int| 0 <= i < kept.len() implies stripped(kept)[i] == kept[i] by {
                assert(keep(kept[i]));
            }
        }
        assert forall|i: int| 0 <= i < kept.len() implies !is_low_entry(#[trigger] kept[i], threshold) by {
            assert(!drop(kept[i]));
        }
        lemma_entries_at_least(kept, threshold);
    }
}

// ---------------------------------------------------------------------------
// A page of entries is in the order asked for
// ---------------------------------------------------------------------------

/// A page of entries is in the order asked for: by word ascending
/// (`word_asc`) or descending (`word_desc`), by code ascending (`code_asc`),
/// by frequency ascending (`frequency_asc`), else by frequency descending;
/// consecutive entries of the page never go against that order.
pub proof fn entry_page_is_ordered(es: Seq<EntryModel>, sort_by: Seq<char>, page: nat, per_page: nat)
    ensures
        forall|j: int|
            0 <= j < page_of(sorted_entries(es, sort_by), page as int, per_page as int).len() - 1 ==> {
                let a = #[trigger] page_of(sorted_entries(es, sort_by), page as int, per_page as int)[j];
                let b = page_of(sorted_entries(es, sort_by), page as int, per_page as int)[j + 1];
                &&& sort_by == "word_asc"@ ==> !crate::rime::order::text_less(b.word, a.word)
                &&& sort_by == "word_desc"@ ==> !crate::rime::order::text_less(a.word, b.word)
                &&& sort_by == "code_asc"@ ==> !crate::rime::order::text_less(b.code, a.code)
                &&& sort_by == "frequency_asc"@ ==> a.frequency <= b.frequency
                &&& (sort_by != "word_asc"@ && sort_by != "word_desc"@ && sort_by != "code_asc"@ && sort_by
                    != "frequency_asc"@) ==> a.frequency >= b.frequency
            },
{
    reveal_strlit("word_asc");
    reveal_strlit("word_desc");
    reveal_strlit("code_asc");
    reveal_strlit("frequency_asc");
    assert("word_desc"@.len() == 9 && "word_asc"@.len() == 8 && "code_asc"@.len() == 8 && "frequency_asc"@.len() == 13);
    assert("word_asc"@[0] != "code_asc"@[0]);
    let keys = es.map_values(|e: EntryModel| order_key(e, sort_by));
    let desc = order_desc(sort_by);
    assert(crate::rime::order::same_kind(keys)) by {
        if sort_by == "word_asc"@ || sort_by == "word_desc"@ || sort_by == "code_asc"@ {
            assert forall|i: int| 0 <= i < keys.len() implies #[trigger] keys[i] is Text by {}
        } else {
            assert forall|i: int| 0 <= i < keys.len() implies #[trigger] keys[i] is Num by {}
        }
    }
    crate::rime::order::stable_sort_orders(es, keys, desc);
    let order = crate::rime::order::stable_order(keys, keys.len(), desc);
    let sorted = sorted_entries(es, sort_by);
    assert(sorted == order.map_values(|i: int| es[i]));
    let out = page_of(sorted, page as int, per_page as int);
    let start: int = if (page as int) * (per_page as int) < sorted.len() { (page as int) * (per_page as int) } else { sorted.len() as int };
    assert forall|j: int| 0 <= j < out.len() - 1 implies {
        let a = #[trigger] out[j];
        let b = out[j + 1];
        &&& sort_by == "word_asc"@ ==> !crate::rime::order::text_less(b.word, a.word)
        &&& sort_by == "word_desc"@ ==> !crate::rime::order::text_less(a.word, b.word)
        &&& sort_by == "code_asc"@ ==> !crate::rime::order::text_less(b.code, a.code)
        &&& sort_by == "frequency_asc"@ ==> a.frequency <= b.frequency
        &&& (sort_by != "word_asc"@ && sort_by != "word_desc"@ && sort_by != "code_asc"@ && sort_by
            != "frequency_asc"@) ==> a.frequency >= b.frequency
    } by {
        let x = start + j;
        let y = start + j + 1;
        assert(out[j] == sorted[x]);
        assert(out[j + 1] == sorted[y]);
        assert(0 <= x < y < order.len());
        assert(!crate::rime::order::key_before(keys[order[y]], keys[order[x]], desc));
        assert(0 <= order[x] < es.len() && 0 <= order[y] < es.len());
        assert(keys[order[x]] == order_key(es[order[x]], sort_by));
        assert(keys[order[y]] == order_key(es[order[y]], sort_by));
    }
}


// ---------------------------------------------------------------------------
// A deletion keeps the entries it was not asked to delete
// ---------------------------------------------------------------------------

/// The number of entries that some key names by both word and code.
pub open spec fn count_listed(es: Seq<EntryModel>, keys: Seq<DictEntryKey>) -> nat
    decreases es.len(),
{
    if es.len() == 0 {
        0
    } else if entry_listed(es.last(), keys) {
        count_listed(es.drop_last(), keys) + 1
    } else {
        count_listed(es.drop_last(), keys)
    }
}

/// A line read without its final carriage return still holds its entry's
/// word and code.
proof fn lemma_strip_keeps_entry(l: Seq<char>)
    ensures
        line_entry(l) matches Some(e1) ==> (line_entry(crate::rime::text::strip_cr(l)) matches Some(e2)
            && e2.word == e1.word && e2.code == e1.code),
{
    if l.len() > 0 && l.last() == '\r' && line_entry(l) is Some {
        let m = l.drop_last();
        assert(l =~= m.push('\r'));
        crate::rime::text::lemma_split_push(m, '\r', '\t', Seq::empty());
        crate::rime::text::lemma_split_nonempty(m, '\t', Seq::empty());
        let p2 = split_on(m, '\t');
        let p1 = split_on(l, '\t');
        assert(p1 == p2.drop_last().push(p2.last().push('\r')));
        assert(p1.len() == p2.len());
        assert(p1[0] == p2[0]);
        assert(p1[1] == p2[1]);
        assert(m.len() > 0) by {
            if m.len() == 0 {
                assert(p2 == seq![Seq::<char>::empty()]);
            }
        }
        assert(m[0] == l[0]);
        crate::rime::text::lemma_trimmed_blank(l);
        crate::rime::text::lemma_trimmed_blank(m);
        let k = choose|k: int| 0 <= k < l.len() && !is_white(l[k]);
        assert(k != l.len() - 1);
        assert(m[k] == l[k]);
    }
}

proof fn lemma_entries_push(ls: Seq<Seq<char>>, x: Seq<char>)
    ensures
        entries_in(ls.push(x)) == match line_entry(x) {
            Some(e) => entries_in(ls).push(e),
            None => entries_in(ls),
        },
{
    assert(ls.push(x).drop_last() =~= ls);
}

/// The lines a deletion of `keys` keeps.
pub open spec fn deletion_kept(ls: Seq<Seq<char>>, keys: Seq<DictEntryKey>) -> Seq<Seq<char>> {
    lines_kept(ls, |l: Seq<char>| names_listed_entry(l, keys))
}

proof fn lemma_deletion_keeps(ls: Seq<Seq<char>>, keys: Seq<DictEntryKey>)
    ensures
        forall|i: int|
            0 <= i < entries_in(ls).len() && !entry_listed(#[trigger] entries_in(ls)[i], keys) ==> exists|j: int|
                0 <= j < entries_in(stripped(deletion_kept(ls, keys))).len()
                    && (#[trigger] entries_in(stripped(deletion_kept(ls, keys)))[j]).word
                    == entries_in(ls)[i].word && entries_in(
                    stripped(deletion_kept(ls, keys)),
                )[j].code == entries_in(ls)[i].code,
        lines_dropped(ls, |l: Seq<char>| names_listed_entry(l, keys)) == count_listed(entries_in(ls), keys),
    decreases ls.len(),
{
    let drop = |l: Seq<char>| names_listed_entry(l, keys);
    if ls.len() > 0 {
        let init = ls.drop_last();
        let l = ls.last();
        assert(init.push(l) =~= ls);
        lemma_deletion_keeps(init, keys);
        lemma_entries_push(init, l);
        let src0 = entries_in(init);
        let src = entries_in(ls);
        let k0 = lines_kept(init, drop);
        let out0 = entries_in(stripped(k0));
        let k1 = lines_kept(ls, drop);
        let out = entries_in(stripped(k1));
        assert(k0 == deletion_kept(init, keys));
        assert(k1 == deletion_kept(ls, keys));
        if drop(l) {
            assert(k1 == k0);
        } else {
            assert(k1 == k0.push(l));
            assert(stripped(k1) =~= stripped(k0).push(crate::rime::text::strip_cr(l)));
            lemma_entries_push(stripped(k0), crate::rime::text::strip_cr(l));
        }
        // `out0` is a prefix of `out`.
        assert(out.len() >= out0.len());
        assert forall|j: int| 0 <= j < out0.len() implies out[j] == out0[j] by {}
        lemma_strip_keeps_entry(l);
        assert forall|i: int| 0 <= i < src.len() && !entry_listed(#[trigger] src[i], keys) implies exists|j: int|
            0 <= j < out.len() && (#[trigger] out[j]).word == src[i].word && out[j].code == src[i].code by {
            if i < src0.len() {
                assert(src[i] == src0[i]);
                let j = choose|j: int| 0 <= j < out0.len() && (#[trigger] out0[j]).word == src0[i].word && out0[j].code
                    == src0[i].code;
                assert(out[j] == out0[j]);
            } else {
                let e1 = line_entry(l).unwrap();
                assert(src[i] == e1);
                assert(!drop(l));
                let j = out.len() - 1;
                assert(out[j].word == e1.word);
            }
        }
        match line_entry(l) {
            Some(e) => {
                assert(src.drop_last() =~= src0);
                assert(drop(l) == entry_listed(e, keys));
            },
            None => {
                assert(!drop(l));
            },
        }
    }
}

/// A deletion keeps the entries it was not asked to delete: every entry of
/// the snapshot that no key names by both its word and its code is still
/// found (by word and code) in the text the deletion writes, and the count
/// removed is the number of entries some key names by both word and code.
pub proof fn deletion_keeps_other_entries(content: Seq<char>, keys: Seq<DictEntryKey>)
    ensures
        forall|i: int|
            0 <= i < snapshot_entries_of(content).len() && !entry_listed(#[trigger] snapshot_entries_of(content)[i], keys)
                ==> exists|j: int|
                0 <= j < snapshot_entries_of(deleted_text(content, keys)).len() && (#[trigger] snapshot_entries_of(
                    deleted_text(content, keys),
                )[j]).word == snapshot_entries_of(content)[i].word && snapshot_entries_of(deleted_text(content, keys))[j].code
                    == snapshot_entries_of(content)[i].code,
        lines_dropped(lines_of(content), |l: Seq<char>| names_listed_entry(l, keys)) == count_listed(
            snapshot_entries_of(content),
            keys,
        ),
{
    let drop = |l: Seq<char>| names_listed_entry(l, keys);
    let ls = lines_of(content);
    lemma_deletion_keeps(ls, keys);
    lemma_lines_unbroken(content);
    lemma_kept_lines(ls, drop);
    let kept = lines_kept(ls, drop);
    assert(kept == deletion_kept(ls, keys));
    lemma_lines_of_text(kept);
    let out = snapshot_entries_of(deleted_text(content, keys));
    if kept.len() == 0 {
        let e = Seq::<char>::empty();
        crate::rime::text::lemma_trimmed_blank(e);
        assert(line_entry(e) is None);
        assert(seq![e].drop_last() =~= Seq::<Seq<char>>::empty());
        assert(entries_in(seq![e]) == entries_in(Seq::<Seq<char>>::empty()));
        assert(stripped(kept) =~= Seq::<Seq<char>>::empty());
        assert(out == entries_in(stripped(kept)));
    } else {
        assert(out == entries_in(stripped(kept)));
    }
}

} // verus!
