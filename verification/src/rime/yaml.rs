use vstd::prelude::*;
use vstd::arithmetic::power2::{pow2, lemma2_to64, lemma_pow2_strictly_increases};
use vstd::bits::{lemma_u64_shl_is_mul, lemma_u64_shr_is_div};

verus! {

/// A YAML number. A float is kept as its IEEE-754 bit pattern: the library
/// only carries it through, it never computes with it.
#[derive(Debug, Clone, Copy, PartialEq, Eq, Structural)]
pub enum YamlNumber {
    PosInt(u64),
    NegInt(i64),
    Float(u64),
}

/// A YAML document node. Mapping keys are strings (non-string keys are turned
/// into strings when a document is read).
pub enum YamlValue {
    Null,
    Bool(bool),
    Number(YamlNumber),
    Str(String),
    Sequence(Vec<YamlValue>),
    Mapping(YamlMap),
    Tagged(String, Box<YamlValue>),
}

/// An insertion-ordered YAML mapping.
pub struct YamlMap {
    pub entries: Vec<(String, YamlValue)>,
}

/// The mathematical model of a YAML node.
pub enum YamlView {
    Null,
    Bool(bool),
    Number(YamlNumber),
    Str(Seq<char>),
    Sequence(Seq<YamlView>),
    Mapping(Seq<(Seq<char>, YamlView)>),
    Tagged(Seq<char>, Box<YamlView>),
}

/// The model of a mapping: its entries in order.
pub type Entries = Seq<(Seq<char>, YamlView)>;

pub open spec fn view_value(v: YamlValue) -> YamlView
    decreases v,
{
    match v {
        YamlValue::Null => YamlView::Null,
        YamlValue::Bool(b) => YamlView::Bool(b),
        YamlValue::Number(n) => YamlView::Number(n),
        YamlValue::Str(s) => YamlView::Str(s@),
        YamlValue::Sequence(items) => YamlView::Sequence(view_items(items@)),
        YamlValue::Mapping(m) => YamlView::Mapping(view_entries(m.entries@)),
        YamlValue::Tagged(t, b) => YamlView::Tagged(t@, Box::new(view_value(*b))),
    }
}

pub open spec fn view_items(s: Seq<YamlValue>) -> Seq<YamlView>
    decreases s,
{
    if s.len() == 0 {
        Seq::empty()
    } else {
        view_items(s.drop_last()).push(view_value(s.last()))
    }
}

pub open spec fn view_entries(s: Seq<(String, YamlValue)>) -> Entries
    decreases s,
{
    if s.len() == 0 {
        Seq::empty()
    } else {
        view_entries(s.drop_last()).push((s.last().0@, view_value(s.last().1)))
    }
}

impl View for YamlValue {
    type V = YamlView;

    open spec fn view(&self) -> YamlView {
        view_value(*self)
    }
}

impl View for YamlMap {
    type V = Entries;

    open spec fn view(&self) -> Entries {
        view_entries(self.entries@)
    }
}

pub proof fn lemma_view_items(s: Seq<YamlValue>)
    ensures
        view_items(s).len() == s.len(),
        forall|i: int| 0 <= i < s.len() ==> #[trigger] view_items(s)[i] == view_value(s[i]),
    decreases s.len(),
{
    if s.len() > 0 {
        lemma_view_items(s.drop_last());
    }
}

pub proof fn lemma_view_entries(s: Seq<(String, YamlValue)>)
    ensures
        view_entries(s).len() == s.len(),
        forall|i: int|
            0 <= i < s.len() ==> #[trigger] view_entries(s)[i] == (s[i].0@, view_value(s[i].1)),
    decreases s.len(),
{
    if s.len() > 0 {
        lemma_view_entries(s.drop_last());
    }
}

// ---------------------------------------------------------------------------
// The model of mapping operations
// ---------------------------------------------------------------------------

/// Position of the first entry with key `k`, or -1.
pub open spec fn find_key(m: Entries, k: Seq<char>) -> int
    decreases m.len(),
{
    if m.len() == 0 {
        -1
    } else if m[0].0 == k {
        0
    } else {
        let r = find_key(m.drop_first(), k);
        if r < 0 {
            -1
        } else {
            r + 1
        }
    }
}

pub proof fn lemma_find_key(m: Entries, k: Seq<char>)
    ensures
        -1 <= find_key(m, k) < m.len(),
        find_key(m, k) == -1 <==> (forall|j: int| 0 <= j < m.len() ==> m[j].0 != k),
        find_key(m, k) >= 0 ==> m[find_key(m, k)].0 == k,
        forall|j: int| 0 <= j < find_key(m, k) ==> m[j].0 != k,
    decreases m.len(),
{
    if m.len() > 0 && m[0].0 != k {
        lemma_find_key(m.drop_first(), k);
        if find_key(m, k) == -1 {
            assert forall|j: int| 0 <= j < m.len() implies m[j].0 != k by {
                if j > 0 {
                    assert(m[j] == m.drop_first()[j - 1]);
                }
            }
        } else {
            assert forall|j: int| 0 <= j < find_key(m, k) implies m[j].0 != k by {
                if j > 0 {
                    assert(m[j] == m.drop_first()[j - 1]);
                }
            }
        }
        if forall|j: int| 0 <= j < m.len() ==> m[j].0 != k {
            assert forall|j: int| 0 <= j < m.drop_first().len() implies m.drop_first()[j].0 != k by {
                assert(m.drop_first()[j] == m[j + 1]);
            }
        }
    }
}

/// The position is fixed by the first match.
pub proof fn lemma_find_key_at(m: Entries, k: Seq<char>, i: int)
    requires
        0 <= i < m.len(),
        m[i].0 == k,
        forall|j: int| 0 <= j < i ==> m[j].0 != k,
    ensures
        find_key(m, k) == i,
{
    lemma_find_key(m, k);
}

pub open spec fn has_key(m: Entries, k: Seq<char>) -> bool {
    find_key(m, k) >= 0
}

pub open spec fn map_get(m: Entries, k: Seq<char>) -> Option<YamlView> {
    if find_key(m, k) >= 0 {
        Some(m[find_key(m, k)].1)
    } else {
        None
    }
}

/// Insertion keeps the position of an existing key and appends a new one.
pub open spec fn map_insert(m: Entries, k: Seq<char>, v: YamlView) -> Entries {
    if find_key(m, k) >= 0 {
        m.update(find_key(m, k), (k, v))
    } else {
        m.push((k, v))
    }
}

/// Removal moves the last entry into the freed position.
pub open spec fn map_remove(m: Entries, k: Seq<char>) -> Entries {
    if find_key(m, k) >= 0 {
        m.update(find_key(m, k), m.last()).drop_last()
    } else {
        m
    }
}

/// No key occurs twice.
pub open spec fn keys_unique(m: Entries) -> bool {
    forall|i: int, j: int| 0 <= i < m.len() && 0 <= j < m.len() && i != j ==> m[i].0 != m[j].0
}

pub proof fn lemma_insert_get(m: Entries, k: Seq<char>, v: YamlView)
    ensures
        map_get(map_insert(m, k, v), k) == Some(v),
        has_key(map_insert(m, k, v), k),
{
    lemma_find_key(m, k);
    let r = map_insert(m, k, v);
    if find_key(m, k) >= 0 {
        lemma_find_key_at(r, k, find_key(m, k));
    } else {
        lemma_find_key_at(r, k, m.len() as int);
    }
}

/// Every entry of an insertion is an old entry or the new one.
pub proof fn lemma_insert_entries(m: Entries, k: Seq<char>, v: YamlView)
    ensures
        forall|j: int|
            0 <= j < map_insert(m, k, v).len() ==> #[trigger] map_insert(m, k, v)[j] == (k, v) || exists|i: int|
                0 <= i < m.len() && m[i] == map_insert(m, k, v)[j],
{
    lemma_find_key(m, k);
    let r = map_insert(m, k, v);
    assert forall|j: int| 0 <= j < r.len() implies #[trigger] r[j] == (k, v) || exists|i: int|
        0 <= i < m.len() && m[i] == r[j] by {
        if r[j] != (k, v) {
            assert(m[j] == r[j]);
        }
    }
}

/// Inserting under one key leaves what another key finds.
pub proof fn lemma_insert_other(m: Entries, k: Seq<char>, v: YamlView, k2: Seq<char>)
    requires
        k2 != k,
    ensures
        map_get(map_insert(m, k, v), k2) == map_get(m, k2),
{
    lemma_find_key(m, k);
    lemma_find_key(m, k2);
    let r = map_insert(m, k, v);
    lemma_find_key(r, k2);
    if find_key(m, k2) >= 0 {
        lemma_find_key_at(r, k2, find_key(m, k2));
    } else {
        assert forall|j: int| 0 <= j < r.len() implies r[j].0 != k2 by {
            if j < m.len() && r[j] != (k, v) {
                assert(r[j] == m[j]);
            }
        }
    }
}

pub proof fn lemma_insert_unique(m: Entries, k: Seq<char>, v: YamlView)
    requires
        keys_unique(m),
    ensures
        keys_unique(map_insert(m, k, v)),
        map_get(map_insert(m, k, v), k) == Some(v),
        forall|k2: Seq<char>| k2 != k ==> map_get(map_insert(m, k, v), k2) == map_get(m, k2),
{
    lemma_find_key(m, k);
    let r = map_insert(m, k, v);
    lemma_find_key(r, k);
    if find_key(m, k) >= 0 {
        lemma_find_key_at(r, k, find_key(m, k));
    } else {
        lemma_find_key_at(r, k, m.len() as int);
    }
    assert forall|k2: Seq<char>| k2 != k implies map_get(r, k2) == map_get(m, k2) by {
        lemma_find_key(m, k2);
        lemma_find_key(r, k2);
        if find_key(m, k2) >= 0 {
            lemma_find_key_at(r, k2, find_key(m, k2));
        }
    }
}

pub proof fn lemma_remove_unique(m: Entries, k: Seq<char>)
    requires
        keys_unique(m),
    ensures
        keys_unique(map_remove(m, k)),
        map_get(map_remove(m, k), k) == None::<YamlView>,
        forall|k2: Seq<char>| k2 != k ==> map_get(map_remove(m, k), k2) == map_get(m, k2),
{
    lemma_find_key(m, k);
    let r = map_remove(m, k);
    lemma_find_key(r, k);
    if find_key(m, k) >= 0 {
        let i = find_key(m, k);
        assert forall|j: int| 0 <= j < r.len() implies r[j].0 != k by {
            if j == i {
                assert(r[j] == m[m.len() - 1]);
            } else {
                assert(r[j] == m[j]);
            }
        }
    }
    assert forall|k2: Seq<char>| k2 != k implies map_get(r, k2) == map_get(m, k2) by {
        lemma_find_key(m, k2);
        lemma_find_key(r, k2);
        if find_key(m, k) >= 0 {
            let i = find_key(m, k);
            if find_key(m, k2) >= 0 {
                let p = find_key(m, k2);
                if p == m.len() - 1 {
                    lemma_find_key_at(r, k2, i);
                } else {
                    lemma_find_key_at(r, k2, p);
                }
            } else {
                assert forall|j: int| 0 <= j < r.len() implies r[j].0 != k2 by {
                    if j == i {
                        assert(r[j] == m[m.len() - 1]);
                    } else {
                        assert(r[j] == m[j]);
                    }
                }
            }
        }
    }
}

/// Looks through tags, as the YAML crate's typed accessors do.
pub open spec fn untag(v: YamlView) -> YamlView
    decreases v,
{
    match v {
        YamlView::Tagged(_, b) => untag(*b),
        _ => v,
    }
}

pub open spec fn mapping_of(v: YamlView) -> Option<Entries> {
    match untag(v) {
        YamlView::Mapping(m) => Some(m),
        _ => None,
    }
}

pub open spec fn sequence_of(v: YamlView) -> Option<Seq<YamlView>> {
    match untag(v) {
        YamlView::Sequence(s) => Some(s),
        _ => None,
    }
}

pub open spec fn str_of(v: YamlView) -> Option<Seq<char>> {
    match untag(v) {
        YamlView::Str(s) => Some(s),
        _ => None,
    }
}

pub open spec fn bool_of(v: YamlView) -> Option<bool> {
    match untag(v) {
        YamlView::Bool(b) => Some(b),
        _ => None,
    }
}

pub open spec fn i64_of(v: YamlView) -> Option<i64> {
    match untag(v) {
        YamlView::Number(YamlNumber::PosInt(n)) => if n <= i64::MAX as u64 {
            Some(n as i64)
        } else {
            None
        },
        YamlView::Number(YamlNumber::NegInt(n)) => Some(n),
        _ => None,
    }
}

/// `f64::from_bits(bits) as i64`: the IEEE-754 double with these bits, truncated
/// toward zero and saturated at the bounds of `i64`; NaN gives zero.
pub open spec fn float_bits_to_i64(bits: u64) -> i64 {
    let neg = bits >= 0x8000_0000_0000_0000u64;
    let exp = (bits / 0x10_0000_0000_0000u64) % 2048;
    let mant = bits % 0x10_0000_0000_0000u64;
    if exp == 2047 {
        if mant != 0 {
            0
        } else if neg {
            i64::MIN
        } else {
            i64::MAX
        }
    } else if exp < 1023 {
        0
    } else if exp >= 1086 {
        if neg {
            i64::MIN
        } else {
            i64::MAX
        }
    } else {
        let m = 0x10_0000_0000_0000int + mant;
        let mag = if exp >= 1075 {
            m * pow2((exp - 1075) as nat)
        } else {
            m / pow2((1075 - exp) as nat) as int
        };
        if neg {
            (-mag) as i64
        } else {
            mag as i64
        }
    }
}

/// What `get_i64` reads from a node: an integer, or a float truncated to one
/// (an integer beyond `i64` saturates).
pub open spec fn int_of(v: YamlView) -> Option<i64> {
    match untag(v) {
        YamlView::Number(YamlNumber::PosInt(n)) => if n <= i64::MAX as u64 {
            Some(n as i64)
        } else {
            Some(i64::MAX)
        },
        YamlView::Number(YamlNumber::NegInt(n)) => Some(n),
        YamlView::Number(YamlNumber::Float(bits)) => Some(float_bits_to_i64(bits)),
        _ => None,
    }
}

/// The number an integer becomes in a YAML document.
pub open spec fn number_of_i64(i: i64) -> YamlNumber {
    if i < 0 {
        YamlNumber::NegInt(i)
    } else {
        YamlNumber::PosInt(i as u64)
    }
}

// ---------------------------------------------------------------------------
// Executable operations
// ---------------------------------------------------------------------------

/// `f64::from_bits(bits) as i64`, computed on the bits.
pub fn float_bits_truncated(bits: u64) -> (r: i64)
    ensures
        r == float_bits_to_i64(bits),
{
    let neg = bits >= 0x8000_0000_0000_0000u64;
    let exp = (bits / 0x10_0000_0000_0000u64) % 2048;
    let mant = bits % 0x10_0000_0000_0000u64;
    if exp == 2047 {
        if mant != 0 {
            0
        } else if neg {
            i64::MIN
        } else {
            i64::MAX
        }
    } else if exp < 1023 {
        0
    } else if exp >= 1086 {
        if neg {
            i64::MIN
        } else {
            i64::MAX
        }
    } else {
        let m: u64 = 0x10_0000_0000_0000u64 + mant;
        let mag: u64 = if exp >= 1075 {
            let sh: u64 = exp - 1075;
            proof {
                lemma2_to64();
                assert(pow2(sh as nat) <= 1024) by {
                    lemma_pow2_le(sh as nat, 10);
                }
                assert(m * pow2(sh as nat) <= 0x20_0000_0000_0000int * 1024) by (nonlinear_arith)
                    requires
                        m < 0x20_0000_0000_0000int,
                        pow2(sh as nat) <= 1024,
                ;
                lemma_u64_shl_is_mul(m, sh);
            }
            m << sh
        } else {
            let sh: u64 = 1075 - exp;
            proof {
                lemma_u64_shr_is_div(m, sh);
            }
            m >> sh
        };
        proof {
            if exp >= 1075 {
                lemma2_to64();
                assert(pow2((exp - 1075) as nat) <= 1024) by {
                    lemma_pow2_le((exp - 1075) as nat, 10);
                }
                assert(mag < 0x8000_0000_0000_0000int) by (nonlinear_arith)
                    requires
                        mag == m * pow2((exp - 1075) as nat),
                        m < 0x20_0000_0000_0000int,
                        pow2((exp - 1075) as nat) <= 1024,
                ;
            }
        }
        if neg {
            -(mag as i64)
        } else {
            mag as i64
        }
    }
}

proof fn lemma_pow2_le(a: nat, b: nat)
    requires
        a <= b,
    ensures
        pow2(a) <= pow2(b),
{
    if a < b {
        lemma_pow2_strictly_increases(a, b);
    }
}

pub fn number_from_i64(i: i64) -> (n: YamlNumber)
    ensures
        n == number_of_i64(i),
{
    if i < 0 {
        YamlNumber::NegInt(i)
    } else {
        YamlNumber::PosInt(i as u64)
    }
}

impl YamlValue {
    /// A copy that has the same model.
    pub fn deep_copy(&self) -> (r: YamlValue)
        ensures
            r@ == self@,
        decreases self,
    {
        match self {
            YamlValue::Null => YamlValue::Null,
            YamlValue::Bool(b) => YamlValue::Bool(*b),
            YamlValue::Number(n) => YamlValue::Number(*n),
            YamlValue::Str(s) => YamlValue::Str(s.clone()),
            YamlValue::Sequence(items) => YamlValue::Sequence(copy_items(items)),
            YamlValue::Mapping(m) => YamlValue::Mapping(m.deep_copy()),
            YamlValue::Tagged(t, b) => {
                let inner = (**b).deep_copy();
                YamlValue::Tagged(t.clone(), Box::new(inner))
            },
        }
    }

    pub fn as_mapping(&self) -> (r: Option<&YamlMap>)
        ensures
            match r {
                Some(m) => mapping_of(self@) == Some(m@),
                None => mapping_of(self@) == None::<Entries>,
            },
        decreases self,
    {
        match self {
            YamlValue::Mapping(m) => Some(m),
            YamlValue::Tagged(_, b) => (**b).as_mapping(),
            _ => None,
        }
    }

    pub fn as_sequence(&self) -> (r: Option<&Vec<YamlValue>>)
        ensures
            match r {
                Some(items) => sequence_of(self@) == Some(view_items(items@)),
                None => sequence_of(self@) == None::<Seq<YamlView>>,
            },
        decreases self,
    {
        match self {
            YamlValue::Sequence(items) => Some(items),
            YamlValue::Tagged(_, b) => (**b).as_sequence(),
            _ => None,
        }
    }

    pub fn as_str(&self) -> (r: Option<&String>)
        ensures
            match r {
                Some(s) => str_of(self@) == Some(s@),
                None => str_of(self@) == None::<Seq<char>>,
            },
        decreases self,
    {
        match self {
            YamlValue::Str(s) => Some(s),
            YamlValue::Tagged(_, b) => (**b).as_str(),
            _ => None,
        }
    }

    pub fn as_bool(&self) -> (r: Option<bool>)
        ensures
            r == bool_of(self@),
        decreases self,
    {
        match self {
            YamlValue::Bool(b) => Some(*b),
            YamlValue::Tagged(_, b) => (**b).as_bool(),
            _ => None,
        }
    }

    pub fn as_i64(&self) -> (r: Option<i64>)
        ensures
            r == i64_of(self@),
        decreases self,
    {
        match self {
            YamlValue::Number(YamlNumber::PosInt(n)) => if *n <= i64::MAX as u64 {
                Some(*n as i64)
            } else {
                None
            },
            YamlValue::Number(YamlNumber::NegInt(n)) => Some(*n),
            YamlValue::Tagged(_, b) => (**b).as_i64(),
            _ => None,
        }
    }
}

/// Copies a list of nodes.
pub fn copy_items(items: &Vec<YamlValue>) -> (r: Vec<YamlValue>)
    ensures
        view_items(r@) == view_items(items@),
    decreases items,
{
    let mut r: Vec<YamlValue> = Vec::new();
    let mut i: usize = 0;
    while i < items.len()
        invariant
            i <= items@.len(),
            r@.len() == i,
            forall|j: int| 0 <= j < i ==> (#[trigger] r@[j])@ == items@[j]@,
        decreases items@.len() - i,
    {
        assert(decreases_to!(items => items@[i as int]));
        let c = items[i].deep_copy();
        r.push(c);
        i = i + 1;
    }
    proof {
        lemma_view_items(r@);
        lemma_view_items(items@);
        assert(view_items(r@) =~= view_items(items@));
    }
    r
}

impl YamlMap {
    /// A copy that has the same model.
    pub fn deep_copy(&self) -> (r: YamlMap)
        ensures
            r@ == self@,
        decreases self,
    {
        let mut entries: Vec<(String, YamlValue)> = Vec::new();
        let mut i: usize = 0;
        while i < self.entries.len()
            invariant
                i <= self.entries@.len(),
                entries@.len() == i,
                forall|j: int|
                    0 <= j < i ==> (#[trigger] entries@[j]).0@ == self.entries@[j].0@
                        && entries@[j].1@ == self.entries@[j].1@,
            decreases self.entries@.len() - i,
        {
            assert(decreases_to!(self => self.entries@[i as int].1));
            let v = self.entries[i].1.deep_copy();
            let k = self.entries[i].0.clone();
            entries.push((k, v));
            i = i + 1;
        }
        let r = YamlMap { entries };
        proof {
            lemma_view_entries(r.entries@);
            lemma_view_entries(self.entries@);
            assert(r@ =~= self@);
        }
        r
    }

    pub fn new() -> (m: YamlMap)
        ensures
            m@ == Seq::<(Seq<char>, YamlView)>::empty(),
    {
        YamlMap { entries: Vec::new() }
    }

    pub fn len(&self) -> (n: usize)
        ensures
            n == self@.len(),
    {
        proof {
            lemma_view_entries(self.entries@);
        }
        self.entries.len()
    }

    pub fn is_empty(&self) -> (b: bool)
        ensures
            b == (self@.len() == 0),
    {
        proof {
            lemma_view_entries(self.entries@);
        }
        self.entries.len() == 0
    }

    /// The key of the entry at position `i`.
    pub fn key_at(&self, i: usize) -> (k: &String)
        requires
            i < self@.len(),
        ensures
            k@ == self@[i as int].0,
    {
        proof {
            lemma_view_entries(self.entries@);
        }
        &self.entries[i].0
    }

    /// The value of the entry at position `i`.
    pub fn value_at_index(&self, i: usize) -> (v: &YamlValue)
        requires
            i < self@.len(),
        ensures
            v@ == self@[i as int].1,
    {
        proof {
            lemma_view_entries(self.entries@);
        }
        &self.entries[i].1
    }

    /// Position of the first entry with this key.
    pub fn find(&self, key: &String) -> (r: Option<usize>)
        ensures
            match r {
                Some(i) => i < self@.len() && find_key(self@, key@) == i as int,
                None => find_key(self@, key@) == -1,
            },
    {
        proof {
            lemma_view_entries(self.entries@);
            lemma_find_key(self@, key@);
        }
        let mut i: usize = 0;
        while i < self.entries.len()
            invariant
                i <= self.entries@.len(),
                self@.len() == self.entries@.len(),
                forall|j: int| 0 <= j < i ==> self@[j].0 != key@,
            decreases self.entries@.len() - i,
        {
            proof {
                lemma_view_entries(self.entries@);
            }
            if self.entries[i].0 == *key {
                proof {
                    lemma_find_key_at(self@, key@, i as int);
                }
                return Some(i);
            }
            i = i + 1;
        }
        None
    }

    pub fn get(&self, key: &String) -> (r: Option<&YamlValue>)
        ensures
            match r {
                Some(v) => map_get(self@, key@) == Some(v@),
                None => map_get(self@, key@) == None::<YamlView>,
            },
    {
        proof {
            lemma_view_entries(self.entries@);
            lemma_find_key(self@, key@);
        }
        match self.find(key) {
            Some(i) => Some(&self.entries[i].1),
            None => None,
        }
    }

    pub fn insert(&mut self, key: String, value: YamlValue)
        ensures
            final(self)@ == map_insert(old(self)@, key@, value@),
    {
        proof {
            lemma_view_entries(self.entries@);
            lemma_find_key(self@, key@);
        }
        let ghost k = key@;
        let ghost old_entries = self.entries@;
        let ghost v = value@;
        match self.find(&key) {
            Some(i) => {
                self.entries.set(i, (key, value));
                proof {
                    lemma_view_entries(self.entries@);
                    lemma_view_entries(old_entries);
                    assert(self@ =~= map_insert(old(self)@, k, v));
                }
            },
            None => {
                self.entries.push((key, value));
                proof {
                    lemma_view_entries(self.entries@);
                    lemma_view_entries(old_entries);
                    assert(self@ =~= map_insert(old(self)@, k, v));
                }
            },
        }
    }

    pub fn remove(&mut self, key: &String) -> (r: Option<YamlValue>)
        ensures
            final(self)@ == map_remove(old(self)@, key@),
            match r {
                Some(v) => map_get(old(self)@, key@) == Some(v@),
                None => map_get(old(self)@, key@) == None::<YamlView>,
            },
    {
        proof {
            lemma_view_entries(self.entries@);
            lemma_find_key(self@, key@);
        }
        let ghost old_entries = self.entries@;
        match self.find(key) {
            Some(i) => {
                let (_k, v) = self.entries.swap_remove(i);
                proof {
                    lemma_view_entries(self.entries@);
                    lemma_view_entries(old_entries);
                    assert(self@ =~= map_remove(old(self)@, key@));
                }
                Some(v)
            },
            None => None,
        }
    }
}

} // verus!
