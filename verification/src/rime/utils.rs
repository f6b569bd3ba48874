use vstd::prelude::*;

verus! {

/// An entry found while walking a directory: a file with its size (`None`
/// when its size could not be read), or a directory with what is in it.
pub enum DirNode {
    File(Option<i64>),
    Dir(DirTree),
}

/// What a directory holds, in the order it was listed.
pub struct DirTree {
    pub entries: Vec<DirNode>,
}

/// The sizes of the files under a list of entries, in walking order.
pub open spec fn sizes_of_nodes(s: Seq<DirNode>) -> Seq<i64>
    decreases s,
{
    if s.len() == 0 {
        Seq::empty()
    } else {
        sizes_of_nodes(s.drop_last()) + sizes_of_node(s.last())
    }
}

pub open spec fn sizes_of_node(n: DirNode) -> Seq<i64>
    decreases n,
{
    match n {
        DirNode::File(Some(x)) => seq![x],
        DirNode::File(None) => Seq::empty(),
        DirNode::Dir(t) => sizes_of_nodes(t.entries@),
    }
}

/// The number of files under a list of entries.
pub open spec fn files_in_nodes(s: Seq<DirNode>) -> nat
    decreases s,
{
    if s.len() == 0 {
        0
    } else {
        files_in_nodes(s.drop_last()) + files_in_node(s.last())
    }
}

pub open spec fn files_in_node(n: DirNode) -> nat
    decreases n,
{
    match n {
        DirNode::File(_) => 1,
        DirNode::Dir(t) => files_in_nodes(t.entries@),
    }
}

pub open spec fn int_sum(s: Seq<i64>) -> int
    decreases s.len(),
{
    if s.len() == 0 {
        0
    } else {
        int_sum(s.drop_last()) + s.last()
    }
}

/// Adding the sizes one by one to `start` never leaves `i64`.
pub open spec fn running_fit(start: int, s: Seq<i64>) -> bool {
    forall|k: int| 0 <= k <= s.len() ==> i64::MIN <= start + #[trigger] int_sum(s.take(k)) <= i64::MAX
}

proof fn lemma_sum_concat(a: Seq<i64>, b: Seq<i64>)
    ensures
        int_sum(a + b) == int_sum(a) + int_sum(b),
    decreases b.len(),
{
    if b.len() == 0 {
        assert(a + b =~= a);
    } else {
        lemma_sum_concat(a, b.drop_last());
        assert((a + b).drop_last() =~= a + b.drop_last());
    }
}

proof fn lemma_running_split(start: int, a: Seq<i64>, b: Seq<i64>)
    requires
        running_fit(start, a + b),
    ensures
        running_fit(start, a),
        running_fit(start + int_sum(a), b),
{
    assert forall|k: int| 0 <= k <= a.len() implies i64::MIN <= start + #[trigger] int_sum(a.take(k)) <= i64::MAX by {
        assert((a + b).take(k) =~= a.take(k));
    }
    assert forall|k: int| 0 <= k <= b.len() implies i64::MIN <= start + int_sum(a) + #[trigger] int_sum(b.take(k))
        <= i64::MAX by {
        assert((a + b).take(a.len() + k) =~= a + b.take(k));
        lemma_sum_concat(a, b.take(k));
        assert(i64::MIN <= start + int_sum((a + b).take(a.len() + k)) <= i64::MAX);
    }
}

fn add_sizes(nodes: &Vec<DirNode>, size: &mut i64)
    requires
        running_fit(*old(size) as int, sizes_of_nodes(nodes@)),
    ensures
        *final(size) == *old(size) + int_sum(sizes_of_nodes(nodes@)),
    decreases nodes,
{
    let mut i: usize = 0;
    let ghost start = *size as int;
    while i < nodes.len()
        invariant
            i <= nodes@.len(),
            running_fit(start, sizes_of_nodes(nodes@)),
            *size == start + int_sum(sizes_of_nodes(nodes@.take(i as int))),
        decreases nodes@.len() - i,
    {
        let ghost done = sizes_of_nodes(nodes@.take(i as int));
        let ghost here = sizes_of_node(nodes@[i as int]);
        proof {
            assert(nodes@.take(i + 1).drop_last() =~= nodes@.take(i as int));
            assert(sizes_of_nodes(nodes@.take(i + 1)) == done + here);
            let rest = nodes@.skip(i + 1);
            lemma_nodes_concat(nodes@.take(i + 1), rest);
            assert(nodes@.take(i + 1) + rest =~= nodes@);
            lemma_running_split(start, done + here, sizes_of_nodes(rest));
            lemma_running_split(start, done, here);
        }
        match &nodes[i] {
            DirNode::File(Some(x)) => {
                proof {
                    assert(here =~= seq![*x]);
                    assert(here.drop_last() =~= Seq::<i64>::empty());
                    assert(int_sum(Seq::<i64>::empty()) == 0);
                    assert(here.last() == *x);
                    assert(int_sum(here) == int_sum(here.drop_last()) + here.last());
                    assert(int_sum(here) == *x);
                    assert(here.take(1) =~= here);
                    assert(here.take(0) =~= Seq::<i64>::empty());
                    assert(i64::MIN <= start + int_sum(done) + int_sum(here.take(1)) <= i64::MAX);
                    lemma_sum_concat(done, here);
                }
                *size = *size + *x;
            },
            DirNode::File(None) => {
                proof {
                    lemma_sum_concat(done, here);
                }
            },
            DirNode::Dir(t) => {
                assert(decreases_to!(nodes => nodes@[i as int]));
                add_sizes(&t.entries, size);
                proof {
                    lemma_sum_concat(done, here);
                }
            },
        }
        i = i + 1;
    }
    assert(nodes@.take(i as int) =~= nodes@);
}

proof fn lemma_nodes_concat(a: Seq<DirNode>, b: Seq<DirNode>)
    ensures
        sizes_of_nodes(a + b) == sizes_of_nodes(a) + sizes_of_nodes(b),
        files_in_nodes(a + b) == files_in_nodes(a) + files_in_nodes(b),
    decreases b.len(),
{
    if b.len() == 0 {
        assert(a + b =~= a);
        assert(sizes_of_nodes(a) + sizes_of_nodes(b) =~= sizes_of_nodes(a));
    } else {
        lemma_nodes_concat(a, b.drop_last());
        assert((a + b).drop_last() =~= a + b.drop_last());
        assert(sizes_of_nodes(a + b) =~= sizes_of_nodes(a) + sizes_of_nodes(b));
    }
}

/// The total size of the files under a directory, summed in walking order.
pub fn dir_size(dir: &DirTree) -> (size: i64)
    requires
        running_fit(0, sizes_of_nodes(dir.entries@)),
    ensures
        size == int_sum(sizes_of_nodes(dir.entries@)),
{
    let mut size: i64 = 0;
    add_sizes(&dir.entries, &mut size);
    size
}

fn collect_sizes(nodes: &Vec<DirNode>, out: &mut Vec<i64>)
    ensures
        final(out)@ == old(out)@ + sizes_of_nodes(nodes@),
    decreases nodes,
{
    let mut i: usize = 0;
    let ghost start = out@;
    while i < nodes.len()
        invariant
            i <= nodes@.len(),
            out@ == start + sizes_of_nodes(nodes@.take(i as int)),
        decreases nodes@.len() - i,
    {
        proof {
            assert(nodes@.take(i + 1).drop_last() =~= nodes@.take(i as int));
        }
        let ghost before = out@;
        match &nodes[i] {
            DirNode::File(Some(x)) => {
                out.push(*x);
            },
            DirNode::File(None) => {},
            DirNode::Dir(t) => {
                assert(decreases_to!(nodes => nodes@[i as int]));
                collect_sizes(&t.entries, out);
            },
        }
        proof {
            assert(sizes_of_nodes(nodes@.take(i + 1)) == sizes_of_nodes(nodes@.take(i as int)) + sizes_of_node(
                nodes@[i as int],
            ));
            assert(out@ =~= start + sizes_of_nodes(nodes@.take(i + 1)));
        }
        i = i + 1;
    }
    assert(nodes@.take(i as int) =~= nodes@);
}

/// The total size of the files under a directory, summed in walking order;
/// `None` when a running total leaves `i64`.
pub fn checked_dir_size(dir: &DirTree) -> (r: Option<i64>)
    ensures
        match r {
            Some(x) => running_fit(0, sizes_of_nodes(dir.entries@)) && x == int_sum(sizes_of_nodes(dir.entries@)),
            None => !running_fit(0, sizes_of_nodes(dir.entries@)),
        },
{
    let mut v: Vec<i64> = Vec::new();
    collect_sizes(&dir.entries, &mut v);
    let ghost s = sizes_of_nodes(dir.entries@);
    assert(v@ =~= s);
    let mut total: i64 = 0;
    let mut i: usize = 0;
    assert(s.take(0) =~= Seq::<i64>::empty());
    while i < v.len()
        invariant
            i <= v@.len(),
            v@ == s,
            s == sizes_of_nodes(dir.entries@),
            total == int_sum(s.take(i as int)),
            forall|k: int| 0 <= k <= i ==> i64::MIN <= 0 + #[trigger] int_sum(s.take(k)) <= i64::MAX,
        decreases v@.len() - i,
    {
        assert(s.take(i + 1).drop_last() =~= s.take(i as int));
        assert(int_sum(s.take(i + 1)) == int_sum(s.take(i as int)) + s[i as int]);
        match total.checked_add(v[i]) {
            Some(t) => {
                total = t;
            },
            None => {
                let ghost k: int = i + 1;
                assert(!(i64::MIN <= 0 + int_sum(s.take(k)) <= i64::MAX));
                assert(!running_fit(0, s)) by {
                    if running_fit(0, s) {
                        assert(0 <= k <= s.len());
                        assert(i64::MIN <= 0 + int_sum(s.take(k)) <= i64::MAX);
                    }
                }
                return None;
            },
        }
        i = i + 1;
    }
    assert(s.take(i as int) =~= s);
    Some(total)
}

fn add_files(nodes: &Vec<DirNode>, count: &mut usize)
    requires
        *old(count) + files_in_nodes(nodes@) <= usize::MAX,
    ensures
        *final(count) == *old(count) + files_in_nodes(nodes@),
    decreases nodes,
{
    let mut i: usize = 0;
    let ghost start = *count as int;
    while i < nodes.len()
        invariant
            i <= nodes@.len(),
            start + files_in_nodes(nodes@) <= usize::MAX,
            *count == start + files_in_nodes(nodes@.take(i as int)),
        decreases nodes@.len() - i,
    {
        proof {
            assert(nodes@.take(i + 1).drop_last() =~= nodes@.take(i as int));
            assert(files_in_nodes(nodes@.take(i + 1)) == files_in_nodes(nodes@.take(i as int)) + files_in_node(nodes@[i as int]));
            let rest = nodes@.skip(i + 1);
            lemma_nodes_concat(nodes@.take(i + 1), rest);
            assert(nodes@.take(i + 1) + rest =~= nodes@);
        }
        match &nodes[i] {
            DirNode::File(_) => {
                *count = *count + 1;
            },
            DirNode::Dir(t) => {
                assert(decreases_to!(nodes => nodes@[i as int]));
                add_files(&t.entries, count);
            },
        }
        i = i + 1;
    }
    assert(nodes@.take(i as int) =~= nodes@);
}

/// The number of files under a directory.
pub fn count_files(dir: &DirTree) -> (n: usize)
    requires
        files_in_nodes(dir.entries@) <= usize::MAX,
    ensures
        n == files_in_nodes(dir.entries@),
{
    let mut n: usize = 0;
    add_files(&dir.entries, &mut n);
    n
}

} // verus!
