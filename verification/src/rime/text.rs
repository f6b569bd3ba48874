use vstd::prelude::*;

verus! {

broadcast use vstd::string::group_string_axioms;

/// The characters of a string, in order.
pub fn chars_of(s: &str) -> (r: Vec<char>)
    ensures
        r@ == s@,
{
    let mut r: Vec<char> = Vec::new();
    for c in iter: s.chars()
        invariant
            r@ == iter.seq().take(iter.index() as int),
            iter.seq() == s@,
    {
        r.push(c);
    }
    r
}

/// Collects characters into a string (std's `FromIterator<char>` for `String`).
#[verifier::external_body]
pub(crate) fn string_of(v: &[char]) -> (s: String)
    ensures
        s@ == v@,
{
    v.iter().collect()
}

/// The decimal digit for `d` (below ten).
pub open spec fn digit_char(d: int) -> char {
    ('0' as int + d) as char
}

/// The decimal numeral of `n`, without leading zeros.
pub open spec fn dec_digits(n: nat) -> Seq<char>
    decreases n,
{
    if n < 10 {
        seq![digit_char(n as int)]
    } else {
        dec_digits(n / 10).push(digit_char((n % 10) as int))
    }
}

pub fn digit_of(d: u64) -> (c: char)
    requires
        d < 10,
    ensures
        c == digit_char(d as int),
{
    ((48u8 + d as u8) as char)
}

/// The decimal numeral of `n`.
pub fn decimal_u64(n: u64) -> (r: Vec<char>)
    ensures
        r@ == dec_digits(n as nat),
    decreases n,
{
    if n < 10 {
        let mut r: Vec<char> = Vec::new();
        r.push(digit_of(n));
        assert(r@ =~= dec_digits(n as nat));
        r
    } else {
        let mut r = decimal_u64(n / 10);
        r.push(digit_of(n % 10));
        r
    }
}

// ---------------------------------------------------------------------------
// Whitespace, splitting, trimming, joining
// ---------------------------------------------------------------------------

/// Unicode's White_Space property (what `char::is_whitespace` tests).
pub open spec fn is_white(c: char) -> bool {
    ('\u{9}' <= c && c <= '\u{d}') || c == ' ' || c == '\u{85}' || c == '\u{a0}' || c == '\u{1680}'
        || ('\u{2000}' <= c && c <= '\u{200a}') || c == '\u{2028}' || c == '\u{2029}' || c
        == '\u{202f}' || c == '\u{205f}' || c == '\u{3000}'
}

pub fn char_is_white(c: char) -> (b: bool)
    ensures
        b == is_white(c),
{
    ('\u{9}' <= c && c <= '\u{d}') || c == ' ' || c == '\u{85}' || c == '\u{a0}' || c == '\u{1680}'
        || ('\u{2000}' <= c && c <= '\u{200a}') || c == '\u{2028}' || c == '\u{2029}' || c
        == '\u{202f}' || c == '\u{205f}' || c == '\u{3000}'
}

pub open spec fn trim_start(s: Seq<char>) -> Seq<char>
    decreases s.len(),
{
    if s.len() > 0 && is_white(s[0]) {
        trim_start(s.drop_first())
    } else {
        s
    }
}

pub open spec fn trim_end(s: Seq<char>) -> Seq<char>
    decreases s.len(),
{
    if s.len() > 0 && is_white(s.last()) {
        trim_end(s.drop_last())
    } else {
        s
    }
}

/// `s` without leading and trailing whitespace (`str::trim`).
pub open spec fn trimmed(s: Seq<char>) -> Seq<char> {
    trim_end(trim_start(s))
}

pub fn trim_chars(v: &[char]) -> (r: Vec<char>)
    ensures
        r@ == trimmed(v@),
{
    let mut lo: usize = 0;
    assert(v@.skip(0) =~= v@);
    while lo < v.len() && char_is_white(v[lo])
        invariant
            lo <= v@.len(),
            trim_start(v@) == trim_start(v@.skip(lo as int)),
        decreases v@.len() - lo,
    {
        assert(v@.skip(lo as int).drop_first() =~= v@.skip(lo + 1));
        lo = lo + 1;
    }
    let ghost start = v@.skip(lo as int);
    assert(trim_start(start) == start);
    let mut hi: usize = v.len();
    while hi > lo && char_is_white(v[hi - 1])
        invariant
            lo <= hi <= v@.len(),
            trim_end(start) == trim_end(v@.subrange(lo as int, hi as int)),
            start == v@.skip(lo as int),
        decreases hi,
    {
        assert(v@.subrange(lo as int, hi as int).drop_last() =~= v@.subrange(lo as int, hi - 1));
        hi = hi - 1;
    }
    let mut r: Vec<char> = Vec::new();
    let mut i: usize = lo;
    while i < hi
        invariant
            lo <= i <= hi <= v@.len(),
            r@ == v@.subrange(lo as int, i as int),
        decreases hi - i,
    {
        r.push(v[i]);
        i = i + 1;
        assert(r@ =~= v@.subrange(lo as int, i as int));
    }
    assert(trim_end(v@.subrange(lo as int, hi as int)) == v@.subrange(lo as int, hi as int));
    r
}

/// `v` without trailing whitespace (`str::trim_end`).
pub fn trim_end_chars(v: &[char]) -> (r: Vec<char>)
    ensures
        r@ == trim_end(v@),
{
    let mut hi: usize = v.len();
    assert(v@.take(hi as int) =~= v@);
    while hi > 0 && char_is_white(v[hi - 1])
        invariant
            hi <= v@.len(),
            trim_end(v@) == trim_end(v@.take(hi as int)),
        decreases hi,
    {
        assert(v@.take(hi as int).drop_last() =~= v@.take(hi - 1));
        hi = hi - 1;
    }
    let mut r: Vec<char> = Vec::new();
    let mut i: usize = 0;
    while i < hi
        invariant
            i <= hi <= v@.len(),
            r@ == v@.take(i as int),
        decreases hi - i,
    {
        r.push(v[i]);
        i = i + 1;
        assert(r@ =~= v@.take(i as int));
    }
    r
}

/// The pieces of `s` between separators, `cur` being the piece already read;
/// empty pieces are kept (`str::split`).
pub open spec fn split_from(s: Seq<char>, sep: char, cur: Seq<char>) -> Seq<Seq<char>>
    decreases s.len(),
{
    if s.len() == 0 {
        seq![cur]
    } else if s[0] == sep {
        seq![cur] + split_from(s.drop_first(), sep, Seq::empty())
    } else {
        split_from(s.drop_first(), sep, cur.push(s[0]))
    }
}

/// Splitting at a separator between two texts splits each of them.
pub proof fn lemma_split_concat(a: Seq<char>, b: Seq<char>, sep: char, cur: Seq<char>)
    ensures
        split_from(a + seq![sep] + b, sep, cur) == split_from(a, sep, cur) + split_from(b, sep, Seq::empty()),
    decreases a.len(),
{
    let s = a + seq![sep] + b;
    assert(s.len() > 0);
    if a.len() == 0 {
        assert(s[0] == sep);
        assert(s.drop_first() =~= b);
        assert(split_from(a, sep, cur) == seq![cur]);
    } else {
        assert(s[0] == a[0]);
        assert(s.drop_first() =~= a.drop_first() + seq![sep] + b);
        if a[0] == sep {
            lemma_split_concat(a.drop_first(), b, sep, Seq::empty());
            assert(seq![cur] + (split_from(a.drop_first(), sep, Seq::empty()) + split_from(b, sep, Seq::empty())) =~= (
            seq![cur] + split_from(a.drop_first(), sep, Seq::empty())) + split_from(b, sep, Seq::empty()));
        } else {
            lemma_split_concat(a.drop_first(), b, sep, cur.push(a[0]));
        }
    }
}

/// A text without the separator is one piece.
pub proof fn lemma_split_free(s: Seq<char>, sep: char, cur: Seq<char>)
    requires
        forall|i: int| 0 <= i < s.len() ==> s[i] != sep,
    ensures
        split_from(s, sep, cur) == seq![cur + s],
    decreases s.len(),
{
    if s.len() == 0 {
        assert(cur + s =~= cur);
    } else {
        assert(s[0] != sep);
        lemma_split_free(s.drop_first(), sep, cur.push(s[0]));
        assert(cur.push(s[0]) + s.drop_first() =~= cur + s);
    }
}

/// A text that ends in a non-space character is not blank once trimmed.
pub proof fn lemma_trimmed_nonempty(s: Seq<char>)
    requires
        s.len() > 0,
        !is_white(s.last()),
    ensures
        trimmed(s).len() > 0,
    decreases s.len(),
{
    if is_white(s[0]) {
        assert(s.len() > 1);
        assert(s.drop_first().last() == s.last());
        lemma_trimmed_nonempty(s.drop_first());
        assert(trim_start(s) == trim_start(s.drop_first()));
    } else {
        assert(trim_start(s) == s);
    }
}

/// The pieces of a split hold no separator.
pub proof fn lemma_split_pieces_free(s: Seq<char>, sep: char, cur: Seq<char>)
    requires
        forall|k: int| 0 <= k < cur.len() ==> cur[k] != sep,
    ensures
        forall|i: int, k: int|
            0 <= i < split_from(s, sep, cur).len() && 0 <= k < split_from(s, sep, cur)[i].len() ==> split_from(
                s,
                sep,
                cur,
            )[i][k] != sep,
    decreases s.len(),
{
    if s.len() > 0 {
        if s[0] == sep {
            lemma_split_pieces_free(s.drop_first(), sep, Seq::empty());
            let rest = split_from(s.drop_first(), sep, Seq::empty());
            assert forall|i: int, k: int|
                0 <= i < split_from(s, sep, cur).len() && 0 <= k < split_from(s, sep, cur)[i].len() implies split_from(
                s,
                sep,
                cur,
            )[i][k] != sep by {
                assert(split_from(s, sep, cur) == seq![cur] + rest);
                if i > 0 {
                    assert(split_from(s, sep, cur)[i] == rest[i - 1]);
                } else {
                    assert(split_from(s, sep, cur)[i] == cur);
                }
            }
        } else {
            let c2 = cur.push(s[0]);
            assert forall|k: int| 0 <= k < c2.len() implies c2[k] != sep by {
                if k < cur.len() {
                    assert(c2[k] == cur[k]);
                }
            }
            lemma_split_pieces_free(s.drop_first(), sep, c2);
            assert(split_from(s, sep, cur) == split_from(s.drop_first(), sep, c2));
        }
    } else {
        assert(split_from(s, sep, cur) == seq![cur]);
        assert forall|i: int, k: int|
            0 <= i < split_from(s, sep, cur).len() && 0 <= k < split_from(s, sep, cur)[i].len() implies split_from(
            s,
            sep,
            cur,
        )[i][k] != sep by {
            assert(split_from(s, sep, cur)[i] == cur);
        }
    }
}

/// Splitting a text extended by one character that is no separator extends
/// the last piece.
pub proof fn lemma_split_push(m: Seq<char>, x: char, sep: char, cur: Seq<char>)
    requires
        x != sep,
    ensures
        split_from(m.push(x), sep, cur) == split_from(m, sep, cur).drop_last().push(
            split_from(m, sep, cur).last().push(x),
        ),
    decreases m.len(),
{
    lemma_split_nonempty(m, sep, cur);
    let s = m.push(x);
    if m.len() == 0 {
        assert(s.drop_first() =~= Seq::<char>::empty());
        assert(split_from(s, sep, cur) == split_from(s.drop_first(), sep, cur.push(x)));
    } else {
        assert(s[0] == m[0]);
        assert(s.drop_first() =~= m.drop_first().push(x));
        if m[0] == sep {
            lemma_split_push(m.drop_first(), x, sep, Seq::empty());
            lemma_split_nonempty(m.drop_first(), sep, Seq::empty());
            let r = split_from(m.drop_first(), sep, Seq::empty());
            assert((seq![cur] + r).drop_last() =~= seq![cur] + r.drop_last());
            assert((seq![cur] + r).last() == r.last());
            assert(seq![cur] + r.drop_last().push(r.last().push(x)) =~= (seq![cur] + r.drop_last()).push(
                r.last().push(x),
            ));
        } else {
            lemma_split_push(m.drop_first(), x, sep, cur.push(m[0]));
        }
    }
}

/// Joined pieces without the separator split back into the pieces.
pub proof fn lemma_split_joined(ls: Seq<Seq<char>>, sep: char)
    requires
        ls.len() > 0,
        forall|i: int, k: int| 0 <= i < ls.len() && 0 <= k < ls[i].len() ==> ls[i][k] != sep,
    ensures
        split_on(joined(ls, seq![sep]), sep) == ls,
    decreases ls.len(),
{
    let e = Seq::<char>::empty();
    if ls.len() == 1 {
        lemma_split_free(ls[0], sep, e);
        assert(e + ls[0] =~= ls[0]);
        assert(seq![ls[0]] =~= ls);
    } else {
        let init = ls.drop_last();
        lemma_split_joined(init, sep);
        lemma_split_concat(joined(init, seq![sep]), ls.last(), sep, e);
        lemma_split_free(ls.last(), sep, e);
        assert(e + ls.last() =~= ls.last());
        assert(init + seq![ls.last()] =~= ls);
    }
}

/// A text is blank once trimmed exactly when all its characters are spaces.
pub proof fn lemma_trimmed_blank(s: Seq<char>)
    ensures
        trimmed(s).len() == 0 <==> (forall|k: int| 0 <= k < s.len() ==> is_white(s[k])),
    decreases s.len(),
{
    if s.len() > 0 {
        if is_white(s[0]) {
            lemma_trimmed_blank(s.drop_first());
            assert(trim_start(s) == trim_start(s.drop_first()));
            if forall|k: int| 0 <= k < s.drop_first().len() ==> is_white(s.drop_first()[k]) {
                assert forall|k: int| 0 <= k < s.len() implies is_white(s[k]) by {
                    if k > 0 {
                        assert(s[k] == s.drop_first()[k - 1]);
                    }
                }
            }
            if forall|k: int| 0 <= k < s.len() ==> is_white(s[k]) {
                assert forall|k: int| 0 <= k < s.drop_first().len() implies is_white(s.drop_first()[k]) by {
                    assert(s.drop_first()[k] == s[k + 1]);
                }
            }
        } else {
            assert(trim_start(s) == s);
            lemma_trim_end_keeps_first(s);
        }
    }
}

/// Trimming the end of a text that starts with a non-space leaves that start.
proof fn lemma_trim_end_keeps_first(s: Seq<char>)
    requires
        s.len() > 0,
        !is_white(s[0]),
    ensures
        trim_end(s).len() > 0,
    decreases s.len(),
{
    if is_white(s.last()) {
        assert(s.len() > 1);
        assert(s.drop_last()[0] == s[0]);
        lemma_trim_end_keeps_first(s.drop_last());
    }
}

pub open spec fn split_on(s: Seq<char>, sep: char) -> Seq<Seq<char>> {
    split_from(s, sep, Seq::empty())
}

pub open spec fn vecs_view(v: Seq<Vec<char>>) -> Seq<Seq<char>> {
    v.map_values(|x: Vec<char>| x@)
}

pub fn split_chars(v: &[char], sep: char) -> (parts: Vec<Vec<char>>)
    ensures
        vecs_view(parts@) == split_on(v@, sep),
{
    let mut parts: Vec<Vec<char>> = Vec::new();
    let mut cur: Vec<char> = Vec::new();
    let mut i: usize = 0;
    assert(v@.skip(0) =~= v@);
    assert(vecs_view(parts@) + split_from(v@.skip(0), sep, cur@) =~= split_on(v@, sep));
    while i < v.len()
        invariant
            i <= v@.len(),
            vecs_view(parts@) + split_from(v@.skip(i as int), sep, cur@) == split_on(v@, sep),
        decreases v@.len() - i,
    {
        let ghost rest = v@.skip(i as int);
        let ghost before = parts@;
        let ghost old_cur = cur@;
        assert(rest.drop_first() =~= v@.skip(i + 1));
        assert(rest[0] == v@[i as int]);
        if v[i] == sep {
            assert(split_from(rest, sep, old_cur) == seq![old_cur] + split_from(rest.drop_first(), sep, Seq::empty()));
            let done = cur;
            parts.push(done);
            cur = Vec::new();
            assert(vecs_view(parts@) =~= vecs_view(before) + seq![old_cur]);
            assert(vecs_view(parts@) + split_from(v@.skip(i + 1), sep, cur@) =~= vecs_view(before) + (seq![old_cur] + split_from(rest.drop_first(), sep, Seq::empty())));
        } else {
            cur.push(v[i]);
            assert(split_from(rest, sep, old_cur) == split_from(rest.drop_first(), sep, cur@));
        }
        i = i + 1;
    }
    let ghost before = parts@;
    assert(v@.skip(i as int) =~= Seq::<char>::empty());
    assert(split_from(v@.skip(i as int), sep, cur@) == seq![cur@]);
    parts.push(cur);
    assert(vecs_view(parts@) =~= vecs_view(before) + seq![parts@.last()@]);
    parts
}

/// Appends the characters of `s`.
pub fn push_all(r: &mut Vec<char>, s: &[char])
    ensures
        final(r)@ == old(r)@ + s@,
{
    let mut i: usize = 0;
    while i < s.len()
        invariant
            i <= s@.len(),
            r@ == old(r)@ + s@.take(i as int),
        decreases s@.len() - i,
    {
        r.push(s[i]);
        i = i + 1;
        assert(r@ =~= old(r)@ + s@.take(i as int));
    }
    assert(s@.take(i as int) =~= s@);
}

/// The pieces joined with `sep` between them (`[T]::join`).
pub open spec fn joined(parts: Seq<Seq<char>>, sep: Seq<char>) -> Seq<char>
    decreases parts.len(),
{
    if parts.len() == 0 {
        Seq::empty()
    } else if parts.len() == 1 {
        parts[0]
    } else {
        joined(parts.drop_last(), sep) + sep + parts.last()
    }
}

pub fn join_chars(parts: &Vec<Vec<char>>, sep: &[char]) -> (r: Vec<char>)
    ensures
        r@ == joined(vecs_view(parts@), sep@),
{
    let mut r: Vec<char> = Vec::new();
    let mut i: usize = 0;
    while i < parts.len()
        invariant
            i <= parts@.len(),
            r@ == joined(vecs_view(parts@.take(i as int)), sep@),
        decreases parts@.len() - i,
    {
        let ghost before = r@;
        assert(vecs_view(parts@.take(i + 1)).drop_last() =~= vecs_view(parts@.take(i as int)));
        assert(vecs_view(parts@.take(i + 1)).last() == parts@[i as int]@);
        if i > 0 {
            push_all(&mut r, sep);
        }
        push_all(&mut r, parts[i].as_slice());
        i = i + 1;
        if i == 1 {
            assert(r@ =~= joined(vecs_view(parts@.take(i as int)), sep@));
        } else {
            assert(r@ =~= joined(vecs_view(parts@.take(i as int)), sep@));
        }
    }
    assert(parts@.take(i as int) =~= parts@);
    r
}


// ---------------------------------------------------------------------------
// Prefixes, suffixes, substrings
// ---------------------------------------------------------------------------

pub open spec fn has_prefix(s: Seq<char>, p: Seq<char>) -> bool {
    p.len() <= s.len() && s.take(p.len() as int) == p
}

pub open spec fn has_suffix(s: Seq<char>, p: Seq<char>) -> bool {
    p.len() <= s.len() && s.skip(s.len() - p.len()) == p
}

/// `t` occurs in `s` starting at position `i`.
pub open spec fn occurs_at(s: Seq<char>, t: Seq<char>, i: int) -> bool {
    0 <= i && i + t.len() <= s.len() && s.subrange(i, i + t.len()) == t
}

/// `t` occurs somewhere in `s` (`str::contains`; the empty string occurs
/// everywhere).
pub open spec fn contains_text(s: Seq<char>, t: Seq<char>) -> bool {
    exists|i: int| occurs_at(s, t, i)
}

/// Whether `t` occurs in `s` at position `i`.
pub fn matches_at(s: &Vec<char>, t: &Vec<char>, i: usize) -> (r: bool)
    ensures
        r == occurs_at(s@, t@, i as int),
{
    if i > s.len() || t.len() > s.len() - i {
        return false;
    }
    let n = s.len();
    let mut j: usize = 0;
    while j < t.len()
        invariant
            n == s@.len(),
            i + t@.len() <= s@.len(),
            j <= t@.len(),
            forall|k: int| 0 <= k < j ==> s@[i + k] == t@[k],
        decreases t@.len() - j,
    {
        if s[i + j] != t[j] {
            assert(s@.subrange(i as int, i + t@.len())[j as int] != t@[j as int]);
            return false;
        }
        j = j + 1;
    }
    assert(s@.subrange(i as int, i + t@.len()) =~= t@);
    true
}

pub fn starts_with(s: &str, p: &str) -> (r: bool)
    ensures
        r == has_prefix(s@, p@),
{
    let sv = chars_of(s);
    let pv = chars_of(p);
    let r = matches_at(&sv, &pv, 0);
    proof {
        if r {
            assert(s@.take(p@.len() as int) =~= s@.subrange(0, p@.len() as int));
        } else if p@.len() <= s@.len() {
            assert(s@.take(p@.len() as int) =~= s@.subrange(0, p@.len() as int));
        }
    }
    r
}

pub fn ends_with(s: &str, p: &str) -> (r: bool)
    ensures
        r == has_suffix(s@, p@),
{
    let sv = chars_of(s);
    let pv = chars_of(p);
    if pv.len() > sv.len() {
        return false;
    }
    let r = matches_at(&sv, &pv, sv.len() - pv.len());
    assert(s@.skip(s@.len() - p@.len()) =~= s@.subrange(s@.len() - p@.len(), s@.len() as int));
    r
}

/// Whether `t` occurs in `s`.
pub fn text_contains(s: &str, t: &str) -> (r: bool)
    ensures
        r == contains_text(s@, t@),
{
    let sv = chars_of(s);
    let tv = chars_of(t);
    if tv.len() > sv.len() {
        assert forall|i: int| !occurs_at(s@, t@, i) by {}
        return false;
    }
    let limit = sv.len() - tv.len();
    let mut i: usize = 0;
    while i < limit
        invariant
            tv@.len() <= sv@.len(),
            limit == sv@.len() - tv@.len(),
            sv@ == s@,
            tv@ == t@,
            i <= limit,
            forall|k: int| 0 <= k < i ==> !occurs_at(s@, t@, k),
        decreases limit - i,
    {
        if matches_at(&sv, &tv, i) {
            return true;
        }
        i = i + 1;
    }
    if matches_at(&sv, &tv, limit) {
        return true;
    }
    assert forall|k: int| !occurs_at(s@, t@, k) by {
        if 0 <= k <= limit {
        }
    }
    false
}


// ---------------------------------------------------------------------------
// File names
// ---------------------------------------------------------------------------

/// The position of the last `c` in `s`, or -1.
pub open spec fn last_index_of(s: Seq<char>, c: char) -> int
    decreases s.len(),
{
    if s.len() == 0 {
        -1
    } else if s.last() == c {
        s.len() - 1
    } else {
        last_index_of(s.drop_last(), c)
    }
}

pub proof fn lemma_last_index_of(s: Seq<char>, c: char)
    ensures
        -1 <= last_index_of(s, c) < s.len(),
        last_index_of(s, c) >= 0 ==> s[last_index_of(s, c)] == c,
        forall|j: int| last_index_of(s, c) < j < s.len() ==> s[j] != c,
    decreases s.len(),
{
    if s.len() > 0 && s.last() != c {
        lemma_last_index_of(s.drop_last(), c);
        assert forall|j: int| last_index_of(s, c) < j < s.len() implies s[j] != c by {
            if j < s.len() - 1 {
                assert(s[j] == s.drop_last()[j]);
            }
        }
    }
}

/// The last occurrence is fixed by the position of a match with none after it.
pub proof fn lemma_last_index_at(s: Seq<char>, c: char, i: int)
    requires
        0 <= i < s.len(),
        s[i] == c,
        forall|j: int| i < j < s.len() ==> s[j] != c,
    ensures
        last_index_of(s, c) == i,
    decreases s.len(),
{
    if i < s.len() - 1 {
        assert(s.last() != c);
        lemma_last_index_at(s.drop_last(), c, i);
    }
}

/// The extension of a file name (`Path::extension`): what follows its last
/// dot, unless there is no dot or the only one starts the name.
pub open spec fn extension_of(name: Seq<char>) -> Option<Seq<char>> {
    let p = last_index_of(name, '.');
    if p <= 0 {
        None
    } else {
        Some(name.skip(p + 1))
    }
}

/// The stem of a file name (`Path::file_stem`): what comes before its last
/// dot, or the whole name when it has no extension.
pub open spec fn stem_of(name: Seq<char>) -> Seq<char> {
    let p = last_index_of(name, '.');
    if p <= 0 {
        name
    } else {
        name.take(p)
    }
}

fn last_dot(cs: &Vec<char>) -> (r: Option<usize>)
    ensures
        match r {
            Some(p) => p as int == last_index_of(cs@, '.'),
            None => last_index_of(cs@, '.') == -1,
        },
{
    proof {
        lemma_last_index_of(cs@, '.');
    }
    let mut i: usize = cs.len();
    while i > 0
        invariant
            i <= cs@.len(),
            forall|j: int| i <= j < cs@.len() ==> cs@[j] != '.',
        decreases i,
    {
        if cs[i - 1] == '.' {
            proof {
                lemma_last_index_at(cs@, '.', i - 1);
            }
            return Some(i - 1);
        }
        i = i - 1;
    }
    None
}

fn chars_from(cs: &Vec<char>, start: usize, end: usize) -> (r: String)
    requires
        start <= end <= cs@.len(),
    ensures
        r@ == cs@.subrange(start as int, end as int),
{
    let mut v: Vec<char> = Vec::new();
    let mut i: usize = start;
    while i < end
        invariant
            start <= i <= end <= cs@.len(),
            v@ == cs@.subrange(start as int, i as int),
        decreases end - i,
    {
        v.push(cs[i]);
        i = i + 1;
        assert(v@ =~= cs@.subrange(start as int, i as int));
    }
    string_of(v.as_slice())
}

pub fn file_extension(name: &str) -> (r: Option<String>)
    ensures
        match extension_of(name@) {
            Some(e) => r matches Some(x) && x@ == e,
            None => r is None,
        },
{
    let cs = chars_of(name);
    proof {
        lemma_last_index_of(cs@, '.');
    }
    match last_dot(&cs) {
        Some(p) => if p == 0 {
            None
        } else {
            let e = chars_from(&cs, p + 1, cs.len());
            assert(cs@.subrange(p + 1, cs@.len() as int) =~= name@.skip(p + 1));
            Some(e)
        },
        None => None,
    }
}

pub fn file_stem(name: &str) -> (r: String)
    ensures
        r@ == stem_of(name@),
{
    let cs = chars_of(name);
    proof {
        lemma_last_index_of(cs@, '.');
    }
    match last_dot(&cs) {
        Some(p) => if p == 0 {
            name.to_string()
        } else {
            let e = chars_from(&cs, 0, p);
            assert(cs@.subrange(0, p as int) =~= name@.take(p as int));
            e
        },
        None => name.to_string(),
    }
}


// ---------------------------------------------------------------------------
// Length in bytes
// ---------------------------------------------------------------------------

proof fn lemma_utf8_suffix(s: Seq<char>, i: int)
    requires
        0 <= i <= s.len(),
    ensures
        vstd::utf8::encode_utf8(s.skip(i)).len() <= vstd::utf8::encode_utf8(s).len(),
    decreases i,
{
    if i > 0 {
        lemma_utf8_suffix(s.drop_first(), i - 1);
        assert(s.drop_first().skip(i - 1) =~= s.skip(i));
    } else {
        assert(s.skip(0) =~= s);
    }
}

/// The number of bytes UTF-8 takes for a character.
pub fn utf8_width(c: char) -> (w: usize)
    ensures
        w == vstd::utf8::encode_scalar(c as u32).len(),
{
    let v = c as u32;
    if v <= 0x7F {
        1
    } else if v <= 0x7FF {
        2
    } else if v <= 0xFFFF {
        proof {
            vstd::utf8::char_is_scalar(c);
        }
        3
    } else {
        4
    }
}

/// Whether a text takes more than `limit` bytes in UTF-8 (`str::len`).
pub fn utf8_len_exceeds(s: &str, limit: usize) -> (r: bool)
    ensures
        r == (vstd::utf8::encode_utf8(s@).len() > limit),
{
    let cs = chars_of(s);
    let mut i: usize = cs.len();
    let mut acc: usize = 0;
    assert(s@.skip(i as int) =~= Seq::<char>::empty());
    while i > 0
        invariant
            i <= cs@.len(),
            cs@ == s@,
            acc <= limit,
            acc == vstd::utf8::encode_utf8(s@.skip(i as int)).len(),
        decreases i,
    {
        let w = utf8_width(cs[i - 1]);
        assert(s@.skip(i - 1).drop_first() =~= s@.skip(i as int));
        assert(s@.skip(i - 1)[0] == cs@[i - 1]);
        if w > limit - acc {
            proof {
                lemma_utf8_suffix(s@, i - 1);
            }
            return true;
        }
        acc = acc + w;
        i = i - 1;
    }
    assert(s@.skip(0) =~= s@);
    false
}


// ---------------------------------------------------------------------------
// Lines, words, numbers
// ---------------------------------------------------------------------------

/// A line without the `\r` of a `\r\n` ending.
pub open spec fn strip_cr(l: Seq<char>) -> Seq<char> {
    if l.len() > 0 && l.last() == '\r' {
        l.drop_last()
    } else {
        l
    }
}

/// The lines of a text (`str::lines`): split at `\n`, a `\r` before it
/// dropped; a final line ending adds no empty line.
pub open spec fn lines_of(s: Seq<char>) -> Seq<Seq<char>> {
    let p = split_on(s, '\n');
    let body = p.drop_last().map_values(|l: Seq<char>| strip_cr(l));
    if p.last().len() > 0 {
        body.push(p.last())
    } else {
        body
    }
}

pub proof fn lemma_split_nonempty(s: Seq<char>, sep: char, cur: Seq<char>)
    ensures
        split_from(s, sep, cur).len() >= 1,
    decreases s.len(),
{
    if s.len() > 0 {
        if s[0] == sep {
            lemma_split_nonempty(s.drop_first(), sep, Seq::empty());
        } else {
            lemma_split_nonempty(s.drop_first(), sep, cur.push(s[0]));
        }
    }
}

fn strip_cr_vec(l: &Vec<char>) -> (r: Vec<char>)
    ensures
        r@ == strip_cr(l@),
{
    let mut r = l.clone();
    if r.len() > 0 && r[r.len() - 1] == '\r' {
        r.pop();
        assert(r@ =~= strip_cr(l@));
    }
    r
}

/// The lines of a text.
pub fn lines(s: &str) -> (r: Vec<Vec<char>>)
    ensures
        vecs_view(r@) == lines_of(s@),
{
    let parts = split_chars(chars_of(s).as_slice(), '\n');
    proof {
        lemma_split_nonempty(s@, '\n', Seq::empty());
    }
    let n = parts.len();
    let mut r: Vec<Vec<char>> = Vec::new();
    let mut i: usize = 0;
    while i + 1 < n
        invariant
            n == parts@.len(),
            n >= 1,
            i <= n - 1,
            vecs_view(parts@) == split_on(s@, '\n'),
            vecs_view(r@) == split_on(s@, '\n').take(i as int).map_values(|l: Seq<char>| strip_cr(l)),
        decreases n - i,
    {
        let ghost before = r@;
        let ghost j = i as int;
        r.push(strip_cr_vec(&parts[i]));
        assert(vecs_view(parts@)[j] == parts@[j]@);
        assert(vecs_view(r@) =~= vecs_view(before).push(strip_cr(parts@[j]@)));
        i = i + 1;
        assert(vecs_view(r@) =~= split_on(s@, '\n').take(i as int).map_values(|l: Seq<char>| strip_cr(l)));
    }
    assert(split_on(s@, '\n').take(i as int) =~= split_on(s@, '\n').drop_last());
    if parts[n - 1].len() > 0 {
        let ghost before = r@;
        r.push(parts[n - 1].clone());
        assert(vecs_view(r@) =~= vecs_view(before).push(parts@[n - 1]@));
    }
    r
}

/// The pieces of `s` between runs of whitespace, `cur` being the piece
/// already read (`str::split_whitespace`: no empty pieces).
pub open spec fn words_from(s: Seq<char>, cur: Seq<char>) -> Seq<Seq<char>>
    decreases s.len(),
{
    if s.len() == 0 {
        if cur.len() > 0 {
            seq![cur]
        } else {
            Seq::empty()
        }
    } else if is_white(s[0]) {
        if cur.len() > 0 {
            seq![cur] + words_from(s.drop_first(), Seq::empty())
        } else {
            words_from(s.drop_first(), Seq::empty())
        }
    } else {
        words_from(s.drop_first(), cur.push(s[0]))
    }
}

/// Words split at a space between two texts are the words of each.
pub proof fn lemma_words_concat(a: Seq<char>, w: char, b: Seq<char>, cur: Seq<char>)
    requires
        is_white(w),
    ensures
        words_from(a + seq![w] + b, cur) == words_from(a, cur) + words_from(b, Seq::empty()),
    decreases a.len(),
{
    let s = a + seq![w] + b;
    if a.len() == 0 {
        assert(s[0] == w);
        assert(s.drop_first() =~= b);
        if cur.len() == 0 {
            assert(words_from(a, cur) =~= Seq::<Seq<char>>::empty());
            assert(Seq::<Seq<char>>::empty() + words_from(b, Seq::empty()) =~= words_from(b, Seq::empty()));
        }
    } else {
        assert(s[0] == a[0]);
        assert(s.drop_first() =~= a.drop_first() + seq![w] + b);
        if is_white(a[0]) {
            lemma_words_concat(a.drop_first(), w, b, Seq::empty());
            let x = words_from(a.drop_first(), Seq::empty());
            let y = words_from(b, Seq::empty());
            assert(seq![cur] + (x + y) =~= (seq![cur] + x) + y);
        } else {
            lemma_words_concat(a.drop_first(), w, b, cur.push(a[0]));
        }
    }
}

/// A non-empty text without spaces is one word.
pub proof fn lemma_words_single(s: Seq<char>, cur: Seq<char>)
    requires
        (cur + s).len() > 0,
        forall|k: int| 0 <= k < s.len() ==> !is_white(s[k]),
    ensures
        words_from(s, cur) == seq![cur + s],
    decreases s.len(),
{
    if s.len() == 0 {
        assert(cur + s =~= cur);
    } else {
        lemma_words_single(s.drop_first(), cur.push(s[0]));
        assert(cur.push(s[0]) + s.drop_first() =~= cur + s);
    }
}

/// Words joined with single spaces are read back as those words.
pub proof fn lemma_words_joined(ws: Seq<Seq<char>>)
    requires
        ws.len() > 0,
        forall|i: int| 0 <= i < ws.len() ==> (#[trigger] ws[i]).len() > 0,
        forall|i: int, k: int| 0 <= i < ws.len() && 0 <= k < ws[i].len() ==> !is_white(ws[i][k]),
    ensures
        words_of(joined(ws, seq![' '])) == ws,
    decreases ws.len(),
{
    let e = Seq::<char>::empty();
    if ws.len() == 1 {
        lemma_words_single(ws[0], e);
        assert(e + ws[0] =~= ws[0]);
        assert(seq![ws[0]] =~= ws);
    } else {
        let init = ws.drop_last();
        assert forall|i: int| 0 <= i < init.len() implies (#[trigger] init[i]).len() > 0 by {
            assert(init[i] == ws[i]);
        }
        assert forall|i: int, k: int| 0 <= i < init.len() && 0 <= k < init[i].len() implies !is_white(init[i][k]) by {
            assert(init[i] == ws[i]);
        }
        lemma_words_joined(init);
        lemma_words_concat(joined(init, seq![' ']), ' ', ws.last(), e);
        assert(ws.last() == ws[ws.len() - 1]);
        lemma_words_single(ws.last(), e);
        assert(e + ws.last() =~= ws.last());
        assert(init + seq![ws.last()] =~= ws);
    }
}

/// The words of a text are not empty and hold no space.
pub proof fn lemma_words_clean(s: Seq<char>, cur: Seq<char>)
    requires
        forall|k: int| 0 <= k < cur.len() ==> !is_white(cur[k]),
    ensures
        forall|i: int| 0 <= i < words_from(s, cur).len() ==> (#[trigger] words_from(s, cur)[i]).len() > 0,
        forall|i: int, k: int|
            0 <= i < words_from(s, cur).len() && 0 <= k < words_from(s, cur)[i].len() ==> !is_white(
                words_from(s, cur)[i][k],
            ),
    decreases s.len(),
{
    if s.len() == 0 {
        if cur.len() > 0 {
            assert(words_from(s, cur) == seq![cur]);
        } else {
            assert(words_from(s, cur).len() == 0);
        }
    } else if is_white(s[0]) {
        lemma_words_clean(s.drop_first(), Seq::empty());
        let rest = words_from(s.drop_first(), Seq::empty());
        if cur.len() > 0 {
            let r = seq![cur] + rest;
            assert(words_from(s, cur) == r);
            assert forall|i: int| 0 <= i < r.len() implies (#[trigger] r[i]).len() > 0 by {
                if i > 0 {
                    assert(r[i] == rest[i - 1]);
                }
            }
            assert forall|i: int, k: int| 0 <= i < r.len() && 0 <= k < r[i].len() implies !is_white(r[i][k]) by {
                if i > 0 {
                    assert(r[i] == rest[i - 1]);
                }
            }
        } else {
            assert(words_from(s, cur) == rest);
        }
    } else {
        let c2 = cur.push(s[0]);
        assert forall|k: int| 0 <= k < c2.len() implies !is_white(c2[k]) by {
            if k < cur.len() {
                assert(c2[k] == cur[k]);
            }
        }
        lemma_words_clean(s.drop_first(), c2);
        assert(words_from(s, cur) == words_from(s.drop_first(), c2));
    }
}

pub open spec fn words_of(s: Seq<char>) -> Seq<Seq<char>> {
    words_from(s, Seq::empty())
}

/// The words of a text.
pub fn words(v: &[char]) -> (parts: Vec<Vec<char>>)
    ensures
        vecs_view(parts@) == words_of(v@),
{
    let mut parts: Vec<Vec<char>> = Vec::new();
    let mut cur: Vec<char> = Vec::new();
    let mut i: usize = 0;
    assert(v@.skip(0) =~= v@);
    while i < v.len()
        invariant
            i <= v@.len(),
            vecs_view(parts@) + words_from(v@.skip(i as int), cur@) == words_of(v@),
        decreases v@.len() - i,
    {
        let ghost rest = v@.skip(i as int);
        let ghost before = parts@;
        let ghost old_cur = cur@;
        assert(rest.drop_first() =~= v@.skip(i + 1));
        assert(rest[0] == v@[i as int]);
        if char_is_white(v[i]) {
            if cur.len() > 0 {
                let done = cur;
                parts.push(done);
                cur = Vec::new();
                assert(vecs_view(parts@) =~= vecs_view(before) + seq![old_cur]);
                assert(vecs_view(parts@) + words_from(v@.skip(i + 1), cur@) =~= vecs_view(before) + (seq![old_cur] + words_from(rest.drop_first(), Seq::empty())));
            } else {
                assert(cur@ =~= Seq::<char>::empty());
            }
        } else {
            cur.push(v[i]);
        }
        i = i + 1;
    }
    let ghost before = parts@;
    assert(v@.skip(i as int) =~= Seq::<char>::empty());
    if cur.len() > 0 {
        parts.push(cur);
        assert(vecs_view(parts@) =~= vecs_view(before) + seq![parts@.last()@]);
    } else {
        assert(vecs_view(parts@) =~= vecs_view(before) + Seq::<Seq<char>>::empty());
    }
    parts
}

pub open spec fn is_digit(c: char) -> bool {
    '0' <= c && c <= '9'
}

/// The value of a string of decimal digits.
pub open spec fn digits_value(s: Seq<char>) -> nat
    decreases s.len(),
{
    if s.len() == 0 {
        0
    } else {
        digits_value(s.drop_last()) * 10 + (s.last() as int - '0' as int) as nat
    }
}

pub open spec fn all_digits(d: Seq<char>) -> bool {
    forall|i: int| 0 <= i < d.len() ==> is_digit(#[trigger] d[i])
}

/// A numeral without its sign.
pub open spec fn digits_part(s: Seq<char>) -> Seq<char> {
    if s.len() > 0 && (s[0] == '-' || s[0] == '+') {
        s.drop_first()
    } else {
        s
    }
}

/// `str::parse::<i64>`: an optional `+` or `-`, then one or more decimal
/// digits and nothing else, within the range of `i64`.
pub open spec fn parse_i64(s: Seq<char>) -> Option<i64> {
    let neg = s.len() > 0 && s[0] == '-';
    let d = digits_part(s);
    if d.len() == 0 || !all_digits(d) {
        None
    } else if neg {
        if digits_value(d) <= 0x8000_0000_0000_0000 {
            Some((-(digits_value(d) as int)) as i64)
        } else {
            None
        }
    } else if digits_value(d) <= i64::MAX {
        Some(digits_value(d) as i64)
    } else {
        None
    }
}

proof fn lemma_digits_grow(s: Seq<char>)
    requires
        forall|i: int| 0 <= i < s.len() ==> is_digit(#[trigger] s[i]),
    ensures
        forall|j: int| 0 <= j <= s.len() ==> digits_value(#[trigger] s.take(j)) <= digits_value(s),
    decreases s.len(),
{
    if s.len() > 0 {
        lemma_digits_grow(s.drop_last());
        assert forall|j: int| 0 <= j <= s.len() implies digits_value(#[trigger] s.take(j)) <= digits_value(s) by {
            if j < s.len() {
                assert(s.take(j) =~= s.drop_last().take(j));
            } else {
                assert(s.take(j) =~= s);
            }
        }
    }
}

/// Parses a decimal integer as `str::parse::<i64>` does.
pub fn parse_int(v: &[char]) -> (r: Option<i64>)
    ensures
        r == parse_i64(v@),
{
    let n = v.len();
    let neg = n > 0 && v[0] == '-';
    let signed = n > 0 && (v[0] == '-' || v[0] == '+');
    let start: usize = if signed { 1 } else { 0 };
    let ghost d = digits_part(v@);
    assert(d =~= v@.skip(start as int));
    if start == n {
        return None;
    }
    let mut k: usize = start;
    while k < n
        invariant
            start <= k <= n,
            n == v@.len(),
            d == v@.skip(start as int),
            d == digits_part(v@),
            forall|x: int| 0 <= x < k - start ==> is_digit(#[trigger] d[x]),
        decreases n - k,
    {
        assert(d[k - start] == v@[k as int]);
        if !('0' <= v[k] && v[k] <= '9') {
            assert(!is_digit(d[k - start]));
            return None;
        }
        k = k + 1;
    }
    assert(all_digits(d));
    proof {
        lemma_digits_grow(d);
    }
    let mut i: usize = start;
    let mut acc: u64 = 0;
    assert(d.take(0) =~= Seq::<char>::empty());
    while i < n
        invariant
            start <= i <= n,
            n == v@.len(),
            d == v@.skip(start as int),
            neg == (v@.len() > 0 && v@[0] == '-'),
            d == digits_part(v@),
            all_digits(d),
            forall|j: int| 0 <= j <= d.len() ==> digits_value(#[trigger] d.take(j)) <= digits_value(d),
            acc == digits_value(d.take(i - start)),
            acc <= 0x8000_0000_0000_0000,
        decreases n - i,
    {
        let c = v[i];
        assert(d[i - start] == c);
        assert(is_digit(d[i - start]));
        let digit = (c as u32 - '0' as u32) as u64;
        assert(d.take(i - start + 1).drop_last() =~= d.take(i - start));
        assert(digits_value(d.take(i - start + 1)) == acc * 10 + digit);
        if acc > (0x8000_0000_0000_0000u64 - digit) / 10 {
            assert(acc * 10 + digit > 0x8000_0000_0000_0000) by (nonlinear_arith)
                requires
                    acc > (0x8000_0000_0000_0000 - digit) / 10,
                    digit < 10,
            ;
            assert(digits_value(d.take(i - start + 1)) <= digits_value(d));
            return None;
        }
        assert(acc * 10 + digit <= 0x8000_0000_0000_0000) by (nonlinear_arith)
            requires
                acc <= (0x8000_0000_0000_0000 - digit) / 10,
                digit < 10,
        ;
        acc = acc * 10 + digit;
        i = i + 1;
    }
    assert(d.take(i - start) =~= d);
    if neg {
        if acc == 0x8000_0000_0000_0000 {
            Some(i64::MIN)
        } else {
            Some(-(acc as i64))
        }
    } else if acc <= i64::MAX as u64 {
        Some(acc as i64)
    } else {
        None
    }
}

/// `s` with every occurrence of `p` (left to right, not overlapping)
/// replaced by `r` (`str::replace`).
pub open spec fn replaced(s: Seq<char>, p: Seq<char>, r: Seq<char>) -> Seq<char>
    decreases s.len(),
{
    if s.len() == 0 {
        s
    } else if p.len() > 0 && has_prefix(s, p) {
        r + replaced(s.skip(p.len() as int), p, r)
    } else {
        seq![s[0]] + replaced(s.drop_first(), p, r)
    }
}

/// Replaces every occurrence of a non-empty pattern.
pub fn replace_all(s: &str, p: &str, r: &str) -> (out: String)
    requires
        p@.len() > 0,
    ensures
        out@ == replaced(s@, p@, r@),
{
    let sv = chars_of(s);
    let pv = chars_of(p);
    let rv = chars_of(r);
    let n = sv.len();
    let mut out: Vec<char> = Vec::new();
    let mut i: usize = 0;
    assert(s@.skip(0) =~= s@);
    while i < n
        invariant
            n == sv@.len(),
            sv@ == s@,
            pv@ == p@,
            rv@ == r@,
            p@.len() > 0,
            i <= n,
            out@ + replaced(s@.skip(i as int), p@, r@) == replaced(s@, p@, r@),
        decreases n - i,
    {
        let ghost rest = s@.skip(i as int);
        let ghost before = out@;
        if matches_at(&sv, &pv, i) {
            assert(rest.take(p@.len() as int) =~= s@.subrange(i as int, i + p@.len()));
            assert(rest.skip(p@.len() as int) =~= s@.skip(i + p@.len()));
            push_all(&mut out, rv.as_slice());
            i = i + pv.len();
            assert(out@ + replaced(s@.skip(i as int), p@, r@) =~= before + (r@ + replaced(rest.skip(p@.len() as int), p@, r@)));
        } else {
            proof {
                if p@.len() <= rest.len() {
                    assert(rest.take(p@.len() as int) =~= s@.subrange(i as int, i + p@.len()));
                }
            }
            assert(rest.drop_first() =~= s@.skip(i + 1));
            out.push(sv[i]);
            i = i + 1;
            assert(out@ + replaced(s@.skip(i as int), p@, r@) =~= before + (seq![rest[0]] + replaced(rest.drop_first(), p@, r@)));
        }
    }
    assert(s@.skip(i as int) =~= Seq::<char>::empty());
    assert(out@ =~= replaced(s@, p@, r@));
    string_of(out.as_slice())
}

/// `s` with the suffix `p` removed as many times as it ends `s`
/// (`str::trim_end_matches`).
pub open spec fn without_suffixes(s: Seq<char>, p: Seq<char>) -> Seq<char>
    decreases s.len(),
{
    if p.len() > 0 && has_suffix(s, p) {
        without_suffixes(s.take(s.len() - p.len()), p)
    } else {
        s
    }
}

pub fn trim_end_matches(s: &str, p: &str) -> (out: String)
    requires
        p@.len() > 0,
    ensures
        out@ == without_suffixes(s@, p@),
{
    let sv = chars_of(s);
    let pv = chars_of(p);
    let mut end: usize = sv.len();
    assert(s@.take(end as int) =~= s@);
    while end >= pv.len() && matches_at(&sv, &pv, end - pv.len())
        invariant
            end <= sv@.len(),
            sv@ == s@,
            pv@ == p@,
            p@.len() > 0,
            without_suffixes(s@, p@) == without_suffixes(s@.take(end as int), p@),
        decreases end,
    {
        let ghost t = s@.take(end as int);
        assert(t.skip(t.len() - p@.len()) =~= s@.subrange(end - p@.len(), end as int));
        assert(t.take(t.len() - p@.len()) =~= s@.take(end - p@.len()));
        end = end - pv.len();
    }
    proof {
        let t = s@.take(end as int);
        if p@.len() <= t.len() {
            assert(t.skip(t.len() - p@.len()) =~= s@.subrange(end - p@.len(), end as int));
        }
    }
    let mut out: Vec<char> = Vec::new();
    let mut i: usize = 0;
    while i < end
        invariant
            i <= end <= sv@.len(),
            out@ == sv@.take(i as int),
        decreases end - i,
    {
        out.push(sv[i]);
        i = i + 1;
        assert(out@ =~= sv@.take(i as int));
    }
    string_of(out.as_slice())
}

// ---------------------------------------------------------------------------
// Case
// ---------------------------------------------------------------------------

/// The lower-case form of a text (`str::to_lowercase`, the Unicode mapping).
pub uninterp spec fn lowercase(s: Seq<char>) -> Seq<char>;

/// `str::to_lowercase`. Claimed of std: the result is the Unicode lower-case
/// mapping of the text, which depends on the text alone; what that mapping is
/// is not stated.
#[verifier::external_body]
pub(crate) fn to_lowercase(s: &str) -> (r: String)
    ensures
        r@ == lowercase(s@),
{
    s.to_lowercase()
}

} // verus!
