use vstd::prelude::*;

verus! {

/// Lexicographic order on character sequences. On valid strings this is the
/// order of `String::cmp`, which compares UTF-8 bytes: the encoding keeps the
/// order of code points.
pub open spec fn text_less(a: Seq<char>, b: Seq<char>) -> bool
    decreases a.len(),
{
    if a.len() == 0 {
        b.len() > 0
    } else if b.len() == 0 {
        false
    } else if a[0] != b[0] {
        a[0] < b[0]
    } else {
        text_less(a.drop_first(), b.drop_first())
    }
}

/// `a < b` for strings.
pub fn str_less(a: &str, b: &str) -> (r: bool)
    ensures
        r == text_less(a@, b@),
{
    let av = crate::rime::text::chars_of(a);
    let bv = crate::rime::text::chars_of(b);
    let mut i: usize = 0;
    assert(av@.skip(0) =~= av@);
    assert(bv@.skip(0) =~= bv@);
    while i < av.len() && i < bv.len() && av[i] == bv[i]
        invariant
            i <= av@.len(),
            i <= bv@.len(),
            text_less(av@, bv@) == text_less(av@.skip(i as int), bv@.skip(i as int)),
        decreases av@.len() - i,
    {
        assert(av@.skip(i as int).drop_first() =~= av@.skip(i + 1));
        assert(bv@.skip(i as int).drop_first() =~= bv@.skip(i + 1));
        i = i + 1;
    }
    if i == av.len() {
        i < bv.len()
    } else if i == bv.len() {
        false
    } else {
        av[i] < bv[i]
    }
}

/// What a list is ordered by: a text field or an integer field.
pub enum SortKey {
    Text(String),
    Num(i64),
}

/// The model of a sort key.
pub enum KeyModel {
    Text(Seq<char>),
    Num(int),
}

impl View for SortKey {
    type V = KeyModel;

    open spec fn view(&self) -> KeyModel {
        match self {
            SortKey::Text(s) => KeyModel::Text(s@),
            SortKey::Num(n) => KeyModel::Num(*n as int),
        }
    }
}

pub open spec fn keys_view(keys: Seq<SortKey>) -> Seq<KeyModel> {
    keys.map_values(|k: SortKey| k@)
}

/// Whether `a` goes strictly before `b`: ascending, or with `desc`, descending.
/// Keys of different kinds are never ordered.
pub open spec fn key_before(a: KeyModel, b: KeyModel, desc: bool) -> bool {
    match (a, b) {
        (KeyModel::Text(x), KeyModel::Text(y)) => if desc {
            text_less(y, x)
        } else {
            text_less(x, y)
        },
        (KeyModel::Num(x), KeyModel::Num(y)) => if desc {
            y < x
        } else {
            x < y
        },
        _ => false,
    }
}

pub fn before(a: &SortKey, b: &SortKey, desc: bool) -> (r: bool)
    ensures
        r == key_before(a@, b@, desc),
{
    match (a, b) {
        (SortKey::Text(x), SortKey::Text(y)) => if desc {
            str_less(y.as_str(), x.as_str())
        } else {
            str_less(x.as_str(), y.as_str())
        },
        (SortKey::Num(x), SortKey::Num(y)) => if desc {
            *y < *x
        } else {
            *x < *y
        },
        _ => false,
    }
}

/// Stable insertion of position `i` into an ordered list of positions: it
/// goes after every position whose key it does not precede.
pub open spec fn insert_stable(order: Seq<int>, i: int, keys: Seq<KeyModel>, desc: bool) -> Seq<int>
    decreases order.len(),
{
    if order.len() == 0 {
        seq![i]
    } else if key_before(keys[i], keys[order.last()], desc) {
        insert_stable(order.drop_last(), i, keys, desc).push(order.last())
    } else {
        order.push(i)
    }
}

/// The positions of the first `n` keys in the order of a stable sort.
pub open spec fn stable_order(keys: Seq<KeyModel>, n: nat, desc: bool) -> Seq<int>
    decreases n,
{
    if n == 0 {
        Seq::empty()
    } else {
        insert_stable(stable_order(keys, (n - 1) as nat, desc), n - 1, keys, desc)
    }
}

/// The items rearranged by a stable sort on their keys.
pub open spec fn sorted_by_keys<T>(items: Seq<T>, keys: Seq<KeyModel>, desc: bool) -> Seq<T> {
    stable_order(keys, keys.len(), desc).map_values(|i: int| items[i])
}

proof fn lemma_insert_stable_len(order: Seq<int>, i: int, keys: Seq<KeyModel>, desc: bool)
    ensures
        insert_stable(order, i, keys, desc).len() == order.len() + 1,
        forall|j: int|
            0 <= j < order.len() + 1 ==> (#[trigger] insert_stable(order, i, keys, desc)[j] == i
                || order.contains(insert_stable(order, i, keys, desc)[j])),
    decreases order.len(),
{
    if order.len() > 0 && key_before(keys[i], keys[order.last()], desc) {
        lemma_insert_stable_len(order.drop_last(), i, keys, desc);
        let r = insert_stable(order, i, keys, desc);
        assert forall|j: int| 0 <= j < order.len() + 1 implies #[trigger] r[j] == i
            || order.contains(r[j]) by {
            if j < order.len() {
                let x = insert_stable(order.drop_last(), i, keys, desc)[j];
                if x != i {
                    let k = choose|k: int| 0 <= k < order.drop_last().len() && order.drop_last()[k] == x;
                    assert(order[k] == x);
                }
            } else {
                assert(order[order.len() - 1] == r[j]);
            }
        }
    } else if order.len() > 0 {
        let r = insert_stable(order, i, keys, desc);
        assert forall|j: int| 0 <= j < order.len() + 1 implies #[trigger] r[j] == i
            || order.contains(r[j]) by {
            if j < order.len() {
                assert(order[j] == r[j]);
            }
        }
    }
}

proof fn lemma_stable_order_range(keys: Seq<KeyModel>, n: nat, desc: bool)
    ensures
        stable_order(keys, n, desc).len() == n,
        forall|j: int|
            0 <= j < n ==> 0 <= #[trigger] stable_order(keys, n, desc)[j] < n,
    decreases n,
{
    if n > 0 {
        let prev = stable_order(keys, (n - 1) as nat, desc);
        lemma_stable_order_range(keys, (n - 1) as nat, desc);
        lemma_insert_stable_len(prev, n - 1, keys, desc);
        assert forall|j: int| 0 <= j < n implies 0 <= #[trigger] stable_order(keys, n, desc)[j]
            < n by {
            let x = stable_order(keys, n, desc)[j];
            if x != n - 1 {
                let k = choose|k: int| 0 <= k < prev.len() && prev[k] == x;
            }
        }
    }
}

/// Sorting commutes with a map applied to every item.
pub proof fn lemma_sorted_map<A, B>(items: Seq<A>, keys: Seq<KeyModel>, desc: bool, f: spec_fn(A) -> B)
    requires
        items.len() == keys.len(),
    ensures
        sorted_by_keys(items.map_values(f), keys, desc) == sorted_by_keys(items, keys, desc).map_values(f),
{
    lemma_stable_order_range(keys, keys.len(), desc);
    assert(sorted_by_keys(items.map_values(f), keys, desc) =~= sorted_by_keys(items, keys, desc).map_values(f));
}

/// Sorting two lists by the same keys keeps a pointwise relation between them.
pub proof fn lemma_sorted_pairs<A, B>(a: Seq<A>, b: Seq<B>, keys: Seq<KeyModel>, desc: bool, rel: spec_fn(A, B) -> bool)
    requires
        a.len() == keys.len(),
        b.len() == keys.len(),
        forall|j: int| 0 <= j < a.len() ==> #[trigger] rel(a[j], b[j]),
    ensures
        sorted_by_keys(a, keys, desc).len() == sorted_by_keys(b, keys, desc).len(),
        forall|j: int|
            0 <= j < sorted_by_keys(a, keys, desc).len() ==> #[trigger] rel(
                sorted_by_keys(a, keys, desc)[j],
                sorted_by_keys(b, keys, desc)[j],
            ),
{
    lemma_stable_order_range(keys, keys.len(), desc);
    let order = stable_order(keys, keys.len(), desc);
    assert forall|j: int| 0 <= j < sorted_by_keys(a, keys, desc).len() implies #[trigger] rel(
        sorted_by_keys(a, keys, desc)[j],
        sorted_by_keys(b, keys, desc)[j],
    ) by {
        let k = order[j];
        assert(rel(a[k], b[k]));
    }
}

/// Sorts `items` stably by `keys` (one key per item), ascending or descending.
pub fn sort_by_keys<T>(items: Vec<T>, keys: Vec<SortKey>, desc: bool) -> (r: Vec<T>)
    requires
        items@.len() == keys@.len(),
    ensures
        r@ == sorted_by_keys(items@, keys_view(keys@), desc),
{
    let ghost all_items = items@;
    let ghost all_keys = keys_view(keys@);
    let n = items.len();
    let mut items = items;
    let mut keys = keys;
    let mut r: Vec<T> = Vec::new();
    let mut rk: Vec<SortKey> = Vec::new();
    let ghost mut order: Seq<int> = Seq::empty();
    let mut taken: usize = 0;
    while taken < n
        invariant
            n == all_items.len(),
            n == all_keys.len(),
            taken <= n,
            items@ == all_items.skip(taken as int),
            keys_view(keys@) == all_keys.skip(taken as int),
            keys@.len() + taken == n,
            order == stable_order(all_keys, taken as nat, desc),
            order.len() == taken,
            r@.len() == taken,
            rk@.len() == taken,
            forall|j: int| 0 <= j < taken ==> 0 <= #[trigger] order[j] < taken,
            forall|j: int| 0 <= j < taken ==> #[trigger] r@[j] == all_items[order[j]],
            forall|j: int| 0 <= j < taken ==> #[trigger] rk@[j]@ == all_keys[order[j]],
        decreases n - taken,
    {
        proof {
            lemma_stable_order_range(all_keys, (taken + 1) as nat, desc);
        }
        assert(keys_view(keys@)[0] == all_keys[taken as int]);
        let ghost old_keys = keys@;
        let x = items.remove(0);
        let k = keys.remove(0);
        assert(keys@ =~= old_keys.skip(1));
        assert(x == all_items[taken as int]);
        assert(k@ == all_keys[taken as int]);
        assert(items@ =~= all_items.skip(taken + 1));
        assert forall|j: int| 0 <= j < keys@.len() implies #[trigger] keys_view(keys@)[j] == all_keys.skip(taken + 1)[j] by {
            assert(keys@[j] == old_keys[j + 1]);
            assert(keys_view(old_keys)[j + 1] == all_keys.skip(taken as int)[j + 1]);
        }
        assert(keys_view(keys@) =~= all_keys.skip(taken + 1));
        let mut p: usize = r.len();
        let ghost target = insert_stable(order, taken as int, all_keys, desc);
        assert(order.take(p as int) =~= order);
        assert(target =~= insert_stable(order.take(p as int), taken as int, all_keys, desc) + order.skip(p as int));
        while p > 0 && before(&k, &rk[p - 1], desc)
            invariant
                p <= r@.len(),
                r@.len() == taken,
                rk@.len() == taken,
                k@ == all_keys[taken as int],
                order.len() == taken,
                taken < all_keys.len(),
                forall|j: int| 0 <= j < taken ==> 0 <= #[trigger] order[j] < taken,
                forall|j: int| 0 <= j < taken ==> #[trigger] rk@[j]@ == all_keys[order[j]],
                target == insert_stable(order.take(p as int), taken as int, all_keys, desc) + order.skip(p as int),
            decreases p,
        {
            proof {
                let pre = order.take(p as int);
                assert(pre.last() == order[p - 1]);
                assert(pre.drop_last() =~= order.take(p - 1));
                assert(insert_stable(pre, taken as int, all_keys, desc) == insert_stable(pre.drop_last(), taken as int, all_keys, desc).push(pre.last()));
                assert(order.skip(p - 1) =~= seq![order[p - 1]] + order.skip(p as int));
                assert(insert_stable(pre.drop_last(), taken as int, all_keys, desc).push(pre.last()) + order.skip(p as int)
                    =~= insert_stable(order.take(p - 1), taken as int, all_keys, desc) + order.skip(p - 1));
            }
            p = p - 1;
        }
        proof {
            let pre = order.take(p as int);
            if p > 0 {
                assert(pre.last() == order[p - 1]);
                assert(!key_before(all_keys[taken as int], all_keys[pre.last()], desc));
                assert(insert_stable(pre, taken as int, all_keys, desc) == pre.push(taken as int));
            } else {
                assert(pre =~= Seq::<int>::empty());
            }
            assert(target =~= order.take(p as int).push(taken as int) + order.skip(p as int));
        }
        r.insert(p, x);
        rk.insert(p, k);
        proof {
            let old_order = order;
            order = target;
            assert(order == stable_order(all_keys, (taken + 1) as nat, desc));
            assert forall|j: int| 0 <= j < taken + 1 implies #[trigger] r@[j] == all_items[order[j]] by {
                if j < p {
                    assert(order[j] == old_order[j]);
                } else if j > p {
                    assert(order[j] == old_order[j - 1]);
                }
            }
            assert forall|j: int| 0 <= j < taken + 1 implies #[trigger] rk@[j]@ == all_keys[order[j]] by {
                if j < p {
                    assert(order[j] == old_order[j]);
                } else if j > p {
                    assert(order[j] == old_order[j - 1]);
                }
            }
        }
        taken = taken + 1;
    }
    assert(r@ =~= sorted_by_keys(all_items, all_keys, desc));
    r
}


// ---------------------------------------------------------------------------
// What a stable sort promises
// ---------------------------------------------------------------------------

proof fn lemma_text_less_irrefl(a: Seq<char>)
    ensures
        !text_less(a, a),
    decreases a.len(),
{
    if a.len() > 0 {
        lemma_text_less_irrefl(a.drop_first());
    }
}

proof fn lemma_text_less_asym(a: Seq<char>, b: Seq<char>)
    ensures
        text_less(a, b) ==> !text_less(b, a),
    decreases a.len(),
{
    if a.len() > 0 && b.len() > 0 && a[0] == b[0] {
        lemma_text_less_asym(a.drop_first(), b.drop_first());
    }
}

proof fn lemma_text_less_trans(a: Seq<char>, b: Seq<char>, c: Seq<char>)
    ensures
        text_less(a, b) && text_less(b, c) ==> text_less(a, c),
    decreases a.len(),
{
    if a.len() > 0 && b.len() > 0 && c.len() > 0 {
        lemma_text_less_trans(a.drop_first(), b.drop_first(), c.drop_first());
    }
}

proof fn lemma_text_less_total(a: Seq<char>, b: Seq<char>)
    ensures
        a == b || text_less(a, b) || text_less(b, a),
    decreases a.len(),
{
    if a.len() > 0 && b.len() > 0 && a[0] == b[0] {
        lemma_text_less_total(a.drop_first(), b.drop_first());
        if a.drop_first() == b.drop_first() {
            assert(a =~= seq![a[0]] + a.drop_first());
            assert(b =~= seq![b[0]] + b.drop_first());
        }
    } else if a.len() == 0 && b.len() == 0 {
        assert(a =~= b);
    }
}

proof fn lemma_text_not_less_trans(x: Seq<char>, y: Seq<char>, z: Seq<char>)
    ensures
        !text_less(x, y) && !text_less(y, z) ==> !text_less(x, z),
{
    lemma_text_less_total(x, y);
    lemma_text_less_total(y, z);
    lemma_text_less_trans(z, y, x);
    lemma_text_less_asym(x, z);
    lemma_text_less_asym(z, x);
    lemma_text_less_irrefl(x);
}

/// The keys are all texts or all numbers.
pub open spec fn same_kind(keys: Seq<KeyModel>) -> bool {
    (forall|i: int| 0 <= i < keys.len() ==> #[trigger] keys[i] is Text) || (forall|i: int|
        0 <= i < keys.len() ==> #[trigger] keys[i] is Num)
}

/// `key_before` is a strict weak order on the keys: never both ways, and
/// "not before" chains.
pub open spec fn orders_keys(keys: Seq<KeyModel>, desc: bool) -> bool {
    &&& forall|a: int, b: int|
        0 <= a < keys.len() && 0 <= b < keys.len() && #[trigger] key_before(keys[a], keys[b], desc) ==> !key_before(
            keys[b],
            keys[a],
            desc,
        )
    &&& forall|a: int, b: int, c: int|
        0 <= a < keys.len() && 0 <= b < keys.len() && 0 <= c < keys.len() && !#[trigger] key_before(
            keys[a],
            keys[b],
            desc,
        ) && !#[trigger] key_before(keys[b], keys[c], desc) ==> !key_before(keys[a], keys[c], desc)
}

proof fn lemma_same_kind_orders(keys: Seq<KeyModel>, desc: bool)
    requires
        same_kind(keys),
    ensures
        orders_keys(keys, desc),
{
    assert forall|a: int, b: int|
        0 <= a < keys.len() && 0 <= b < keys.len() && #[trigger] key_before(keys[a], keys[b], desc) implies !key_before(
        keys[b],
        keys[a],
        desc,
    ) by {
        match (keys[a], keys[b]) {
            (KeyModel::Text(x), KeyModel::Text(y)) => {
                lemma_text_less_asym(x, y);
                lemma_text_less_asym(y, x);
            },
            _ => {},
        }
    }
    assert forall|a: int, b: int, c: int|
        0 <= a < keys.len() && 0 <= b < keys.len() && 0 <= c < keys.len() && !#[trigger] key_before(
            keys[a],
            keys[b],
            desc,
        ) && !#[trigger] key_before(keys[b], keys[c], desc) implies !key_before(keys[a], keys[c], desc) by {
        match (keys[a], keys[b], keys[c]) {
            (KeyModel::Text(x), KeyModel::Text(y), KeyModel::Text(z)) => {
                lemma_text_not_less_trans(x, y, z);
                lemma_text_not_less_trans(z, y, x);
            },
            (KeyModel::Num(x), KeyModel::Num(y), KeyModel::Num(z)) => {},
            _ => {
                if forall|i: int| 0 <= i < keys.len() ==> #[trigger] keys[i] is Text {
                    assert(keys[a] is Text && keys[b] is Text && keys[c] is Text);
                } else {
                    assert(keys[a] is Num && keys[b] is Num && keys[c] is Num);
                }
            },
        }
    }
}

/// Positions in an order: later ones never go strictly before earlier ones,
/// and two that go neither way keep the order they came in.
pub open spec fn sorted_stably(order: Seq<int>, keys: Seq<KeyModel>, desc: bool) -> bool {
    forall|a: int, b: int|
        0 <= a < b < order.len() ==> !key_before(keys[#[trigger] order[b]], keys[#[trigger] order[a]], desc) && (
        !key_before(keys[order[a]], keys[order[b]], desc) ==> order[a] < order[b])
}

/// Every position below `n` occurs exactly once.
pub open spec fn is_permutation(order: Seq<int>, n: nat) -> bool {
    &&& order.len() == n
    &&& forall|j: int| 0 <= j < n ==> 0 <= #[trigger] order[j] < n
    &&& forall|a: int, b: int| 0 <= a < b < n ==> #[trigger] order[a] != #[trigger] order[b]
}

/// Where stable insertion puts the new position.
proof fn insert_position(order: Seq<int>, i: int, keys: Seq<KeyModel>, desc: bool) -> (p: int)
    ensures
        0 <= p <= order.len(),
        insert_stable(order, i, keys, desc) == order.take(p).push(i) + order.skip(p),
        forall|q: int| p <= q < order.len() ==> key_before(keys[i], keys[#[trigger] order[q]], desc),
        p > 0 ==> !key_before(keys[i], keys[order[p - 1]], desc),
    decreases order.len(),
{
    if order.len() == 0 {
        assert(insert_stable(order, i, keys, desc) =~= order.take(0).push(i) + order.skip(0));
        0
    } else if key_before(keys[i], keys[order.last()], desc) {
        let p = insert_position(order.drop_last(), i, keys, desc);
        let d = order.drop_last();
        assert(insert_stable(order, i, keys, desc) =~= order.take(p).push(i) + order.skip(p)) by {
            assert(d.take(p) =~= order.take(p));
            assert(d.skip(p).push(order.last()) =~= order.skip(p));
        }
        assert forall|q: int| p <= q < order.len() implies key_before(keys[i], keys[#[trigger] order[q]], desc) by {
            if q < order.len() - 1 {
                assert(order[q] == d[q]);
            }
        }
        if p > 0 {
            assert(order[p - 1] == d[p - 1]);
        }
        p
    } else {
        let p = order.len() as int;
        assert(insert_stable(order, i, keys, desc) =~= order.take(p).push(i) + order.skip(p));
        p
    }
}

proof fn lemma_stable_order_sorted(keys: Seq<KeyModel>, n: nat, desc: bool)
    requires
        n <= keys.len(),
        orders_keys(keys, desc),
    ensures
        sorted_stably(stable_order(keys, n, desc), keys, desc),
        is_permutation(stable_order(keys, n, desc), n),
    decreases n,
{
    if n > 0 {
        let prev = stable_order(keys, (n - 1) as nat, desc);
        lemma_stable_order_sorted(keys, (n - 1) as nat, desc);
        let i = n - 1;
        let p = insert_position(prev, i, keys, desc);
        let o = stable_order(keys, n, desc);
        assert(o == prev.take(p).push(i) + prev.skip(p));
        assert(o.len() == n);
        // Where each position of the new order came from.
        assert forall|j: int| 0 <= j < n implies #[trigger] o[j] == (if j < p {
            prev[j]
        } else if j == p {
            i
        } else {
            prev[j - 1]
        }) by {}
        assert forall|a: int, b: int| 0 <= a < b < o.len() implies !key_before(keys[#[trigger] o[b]], keys[#[trigger] o[a]], desc)
            && (!key_before(keys[o[a]], keys[o[b]], desc) ==> o[a] < o[b]) by {
            let ka = if a < p { a } else { a - 1 };
            let kb = if b < p { b } else { b - 1 };
            if a != p && b != p {
                assert(o[a] == prev[ka] && o[b] == prev[kb]);
                assert(ka < kb);
            } else if a == p {
                assert(o[b] == prev[kb]);
                assert(key_before(keys[i], keys[prev[kb]], desc));
            } else {
                assert(o[a] == prev[ka]);
                assert(p > 0);
                assert(!key_before(keys[i], keys[prev[p - 1]], desc));
                if ka < p - 1 {
                    assert(!key_before(keys[prev[p - 1]], keys[prev[ka]], desc));
                }
                assert(0 <= prev[ka] < n - 1);
            }
        }
        assert forall|a: int, b: int| 0 <= a < b < n implies #[trigger] o[a] != #[trigger] o[b] by {
            let ka = if a < p { a } else { a - 1 };
            let kb = if b < p { b } else { b - 1 };
            if a != p && b != p {
                assert(o[a] == prev[ka] && o[b] == prev[kb]);
            } else if a == p {
                assert(o[b] == prev[kb]);
            } else {
                assert(o[a] == prev[ka]);
            }
        }
    }
}

/// A stable sort on keys of one kind: what comes out is every item exactly
/// once, in key order, and items with equal keys keep the order they came in.
pub proof fn stable_sort_orders<T>(items: Seq<T>, keys: Seq<KeyModel>, desc: bool)
    requires
        items.len() == keys.len(),
        same_kind(keys),
    ensures
        is_permutation(stable_order(keys, keys.len(), desc), keys.len()),
        sorted_stably(stable_order(keys, keys.len(), desc), keys, desc),
        sorted_by_keys(items, keys, desc) == stable_order(keys, keys.len(), desc).map_values(|i: int| items[i]),
{
    lemma_same_kind_orders(keys, desc);
    lemma_stable_order_sorted(keys, keys.len(), desc);
}

} // verus!
