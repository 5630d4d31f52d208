//! The in-memory picture of a directory tree that the pipeline works on:
//! a flat snapshot of entries as a traversal reports them, and the tree
//! built from it. All size and detection logic is stated over this model.

use vstd::prelude::*;

verus! {

broadcast use vstd::seq::group_seq_axioms, vstd::std_specs::vec::group_vec_axioms;

/// One entry of a directory-tree snapshot, in depth-first order: entries at
/// depth `d + 1` that follow a directory entry at depth `d` are its
/// children. The root of the walked tree has depth 0.
pub struct RawEntry {
    pub path: String,
    pub name: String,
    pub depth: usize,
    pub is_dir: bool,
    pub is_file: bool,
    pub size: u64,
}

/// A directory tree: files carry their byte length, directories carry the
/// absolute path they were found at and their direct children.
pub enum FsNode {
    File { name: String, size: u64 },
    Dir { name: String, path: String, children: Vec<FsNode> },
}

/// The true total byte size of all files anywhere under a node.
pub open spec fn node_size(n: FsNode) -> int
    decreases n,
{
    match n {
        FsNode::File { size, .. } => size as int,
        FsNode::Dir { children, .. } => forest_size(children@),
    }
}

/// The true total byte size of all files under a sequence of sibling nodes.
pub open spec fn forest_size(s: Seq<FsNode>) -> int
    decreases s,
{
    if s.len() == 0 {
        0
    } else {
        node_size(s[0]) + forest_size(s.drop_first())
    }
}

pub proof fn lemma_node_size_nonneg(n: FsNode)
    ensures
        node_size(n) >= 0,
    decreases n,
{
    match n {
        FsNode::File { size, .. } => {}
        FsNode::Dir { children, .. } => {
            lemma_forest_size_nonneg(children@);
        }
    }
}

pub proof fn lemma_forest_size_nonneg(s: Seq<FsNode>)
    ensures
        forest_size(s) >= 0,
    decreases s,
{
    if s.len() > 0 {
        lemma_node_size_nonneg(s[0]);
        lemma_forest_size_nonneg(s.drop_first());
    }
}

/// Extending a prefix of siblings by one node adds exactly that node's size.
pub proof fn lemma_forest_size_take_succ(s: Seq<FsNode>, i: int)
    requires
        0 <= i < s.len(),
    ensures
        forest_size(s.take(i + 1)) == forest_size(s.take(i)) + node_size(s[i]),
    decreases i,
{
    if i == 0 {
        assert(s.take(1).drop_first() =~= s.take(0));
        assert(s.take(1)[0] == s[0]);
    } else {
        let t = s.drop_first();
        assert(s.take(i + 1).drop_first() =~= t.take(i));
        assert(s.take(i).drop_first() =~= t.take(i - 1));
        assert(s.take(i + 1)[0] == s[0]);
        assert(s.take(i)[0] == s[0]);
        lemma_forest_size_take_succ(t, i - 1);
        assert(t[i - 1] == s[i]);
    }
}

/// A prefix of siblings never holds more bytes than the whole sequence.
pub proof fn lemma_forest_size_take_le(s: Seq<FsNode>, i: int)
    requires
        0 <= i <= s.len(),
    ensures
        forest_size(s.take(i)) <= forest_size(s),
    decreases s.len() - i,
{
    if i == s.len() {
        assert(s.take(i) =~= s);
    } else {
        lemma_forest_size_take_succ(s, i);
        lemma_node_size_nonneg(s[i]);
        lemma_forest_size_take_le(s, i + 1);
    }
}

/// The bytes the file entries of a snapshot segment report (directory
/// entries contribute nothing).
pub open spec fn entries_size_sum(s: Seq<RawEntry>) -> int
    decreases s,
{
    if s.len() == 0 {
        0
    } else {
        (if s[0].is_file && !s[0].is_dir {
            s[0].size as int
        } else {
            0int
        }) + entries_size_sum(s.drop_first())
    }
}

pub proof fn lemma_entries_size_sum_nonneg(s: Seq<RawEntry>)
    ensures
        entries_size_sum(s) >= 0,
    decreases s,
{
    if s.len() > 0 {
        lemma_entries_size_sum_nonneg(s.drop_first());
    }
}

/// Splitting a snapshot segment splits its byte sum.
pub proof fn lemma_entries_size_sum_split(s: Seq<RawEntry>, a: int, b: int, c: int)
    requires
        0 <= a <= b <= c <= s.len(),
    ensures
        entries_size_sum(s.subrange(a, c)) == entries_size_sum(s.subrange(a, b))
            + entries_size_sum(s.subrange(b, c)),
    decreases b - a,
{
    if a == b {
        assert(s.subrange(a, b) =~= Seq::<RawEntry>::empty());
    } else {
        lemma_entries_size_sum_split(s, a + 1, b, c);
        assert(s.subrange(a, c).drop_first() =~= s.subrange(a + 1, c));
        assert(s.subrange(a, b).drop_first() =~= s.subrange(a + 1, b));
        assert(s.subrange(a, c)[0] == s[a]);
        assert(s.subrange(a, b)[0] == s[a]);
    }
}

/// How many regular-file entries a snapshot segment holds.
pub open spec fn entries_file_count(s: Seq<RawEntry>) -> int
    decreases s,
{
    if s.len() == 0 {
        0
    } else {
        (if s[0].is_file && !s[0].is_dir {
            1int
        } else {
            0int
        }) + entries_file_count(s.drop_first())
    }
}

pub proof fn lemma_entries_file_count_nonneg(s: Seq<RawEntry>)
    ensures
        entries_file_count(s) >= 0,
    decreases s,
{
    if s.len() > 0 {
        lemma_entries_file_count_nonneg(s.drop_first());
    }
}

/// Splitting a snapshot segment splits its file count.
pub proof fn lemma_entries_file_count_split(s: Seq<RawEntry>, a: int, b: int, c: int)
    requires
        0 <= a <= b <= c <= s.len(),
    ensures
        entries_file_count(s.subrange(a, c)) == entries_file_count(s.subrange(a, b))
            + entries_file_count(s.subrange(b, c)),
    decreases b - a,
{
    if a == b {
        assert(s.subrange(a, b) =~= Seq::<RawEntry>::empty());
    } else {
        lemma_entries_file_count_split(s, a + 1, b, c);
        assert(s.subrange(a, c).drop_first() =~= s.subrange(a + 1, c));
        assert(s.subrange(a, b).drop_first() =~= s.subrange(a + 1, b));
        assert(s.subrange(a, c)[0] == s[a]);
        assert(s.subrange(a, b)[0] == s[a]);
    }
}

/// A snapshot as a depth-first walk reports it: the root at depth 0,
/// every later entry at most one level deeper than its predecessor, and
/// deeper only when the predecessor is a directory (children follow only
/// directories).
pub open spec fn wf_snapshot(entries: Seq<RawEntry>) -> bool {
    &&& entries.len() > 0 ==> entries[0].depth == 0
    &&& forall|i: int|
        0 < i < entries.len() ==> (#[trigger] entries[i]).depth <= entries[i - 1].depth + (
        if entries[i - 1].is_dir {
            1int
        } else {
            0int
        })
}

/// Appending a sibling adds exactly its file count to a forest's.
pub proof fn lemma_forest_file_count_push(s: Seq<FsNode>, n: FsNode)
    ensures
        forest_file_count(s.push(n)) == forest_file_count(s) + node_file_count(n),
    decreases s,
{
    let p = s.push(n);
    assert(p.len() == s.len() + 1);
    assert(forest_file_count(p) == node_file_count(p[0]) + forest_file_count(p.drop_first()));
    if s.len() == 0 {
        assert(p[0] == n);
        assert(p.drop_first() =~= Seq::<FsNode>::empty());
        assert(forest_file_count(p.drop_first()) == 0);
    } else {
        assert(p[0] == s[0]);
        assert(p.drop_first() =~= s.drop_first().push(n));
        lemma_forest_file_count_push(s.drop_first(), n);
        assert(forest_file_count(s) == node_file_count(s[0]) + forest_file_count(s.drop_first()));
    }
}

/// Appending a sibling adds exactly its size to a forest's total.
pub proof fn lemma_forest_size_push(s: Seq<FsNode>, n: FsNode)
    ensures
        forest_size(s.push(n)) == forest_size(s) + node_size(n),
    decreases s,
{
    let p = s.push(n);
    assert(p.len() == s.len() + 1);
    assert(forest_size(p) == node_size(p[0]) + forest_size(p.drop_first()));
    if s.len() == 0 {
        assert(p[0] == n);
        assert(p.drop_first() =~= Seq::<FsNode>::empty());
        assert(forest_size(p.drop_first()) == 0);
    } else {
        assert(p[0] == s[0]);
        assert(p.drop_first() =~= s.drop_first().push(n));
        lemma_forest_size_push(s.drop_first(), n);
        assert(forest_size(s) == node_size(s[0]) + forest_size(s.drop_first()));
    }
}

/// Builds the sibling nodes found at `depth` starting at snapshot index
/// `start`, stopping at the first entry whose depth is not `depth`.
/// Returns the nodes and the index of the first entry not consumed.
fn build_nodes(entries: &Vec<RawEntry>, start: usize, depth: usize) -> (r: (Vec<FsNode>, usize))
    requires
        start <= entries.len(),
    ensures
        start <= r.1 <= entries.len(),
        forest_size(r.0@) == entries_size_sum(entries@.subrange(start as int, r.1 as int)),
        forest_file_count(r.0@) == entries_file_count(
            entries@.subrange(start as int, r.1 as int),
        ),
        wf_snapshot(entries@) && (start == entries@.len() || entries@[start as int].depth <= depth)
            ==> r.1 == entries@.len() || entries@[r.1 as int].depth < depth,
    decreases entries.len() - start,
{
    let mut nodes: Vec<FsNode> = Vec::new();
    let mut i: usize = start;
    while i < entries.len() && entries[i].depth == depth
        invariant
            start <= i <= entries.len(),
            forest_size(nodes@) == entries_size_sum(entries@.subrange(start as int, i as int)),
            forest_file_count(nodes@) == entries_file_count(
                entries@.subrange(start as int, i as int),
            ),
            wf_snapshot(entries@) && (start == entries@.len() || entries@[start as int].depth
                <= depth) ==> i == entries@.len() || entries@[i as int].depth <= depth,
        decreases entries.len() - i,
    {
        proof {
            lemma_entries_size_sum_split(entries@, start as int, i as int, i + 1 as int);
            lemma_entries_file_count_split(entries@, start as int, i as int, i + 1 as int);
            let single = entries@.subrange(i as int, i + 1 as int);
            assert(single.len() == 1);
            assert(single[0] == entries@[i as int]);
            assert(single.drop_first() =~= Seq::<RawEntry>::empty());
            assert(entries_size_sum(single.drop_first()) == 0);
            assert(entries_file_count(single.drop_first()) == 0);
            assert(entries_size_sum(single) == (if entries@[i as int].is_file && !entries@[i
                as int].is_dir {
                entries@[i as int].size as int
            } else {
                0int
            }));
            assert(entries_file_count(single) == (if entries@[i as int].is_file && !entries@[i
                as int].is_dir {
                1int
            } else {
                0int
            }));
        }
        let name = entries[i].name.clone();
        let ghost i0: int = i as int;
        if entries[i].is_dir {
            let path = entries[i].path.clone();
            let children: Vec<FsNode> = if depth < usize::MAX && i < usize::MAX {
                let (kids, next) = build_nodes(entries, i + 1, depth + 1);
                i = next;
                kids
            } else {
                i = i + 1;
                Vec::new()
            };
            proof {
                lemma_forest_size_push(nodes@, FsNode::Dir { name, path, children });
                lemma_forest_file_count_push(nodes@, FsNode::Dir { name, path, children });
                lemma_entries_size_sum_split(entries@, start as int, i0, i0 + 1);
                lemma_entries_size_sum_split(entries@, start as int, i0 + 1, i as int);
                lemma_entries_file_count_split(entries@, start as int, i0, i0 + 1);
                lemma_entries_file_count_split(entries@, start as int, i0 + 1, i as int);
                assert(forest_size(children@) == entries_size_sum(
                    entries@.subrange(i0 + 1, i as int),
                ));
                assert(forest_file_count(children@) == entries_file_count(
                    entries@.subrange(i0 + 1, i as int),
                ));
            }
            nodes.push(FsNode::Dir { name, path, children });
        } else if entries[i].is_file {
            let size = entries[i].size;
            proof {
                lemma_forest_size_push(nodes@, FsNode::File { name, size });
                lemma_forest_file_count_push(nodes@, FsNode::File { name, size });
            }
            nodes.push(FsNode::File { name, size });
            i = i + 1;
        } else {
            i = i + 1;
        }
    }
    (nodes, i)
}

/// Builds the tree a snapshot describes; the result is the sequence of
/// nodes at depth 0 (for a walk of one root directory, that one node).
/// The tree holds exactly the bytes and regular files of the snapshot
/// prefix it consumed — never more than the whole snapshot's — and a
/// well-formed snapshot (as a depth-first walk reports one) is consumed
/// in full, so its tree holds exactly the snapshot's bytes and files.
pub fn build_forest(entries: &Vec<RawEntry>) -> (r: Vec<FsNode>)
    ensures
        forest_size(r@) <= entries_size_sum(entries@),
        wf_snapshot(entries@) ==> forest_size(r@) == entries_size_sum(entries@)
            && forest_file_count(r@) == entries_file_count(entries@),
{
    let (nodes, last) = build_nodes(entries, 0, 0);
    proof {
        lemma_entries_size_sum_split(entries@, 0, last as int, entries@.len() as int);
        lemma_entries_size_sum_nonneg(entries@.subrange(last as int, entries@.len() as int));
        assert(entries@.subrange(0, entries@.len() as int) =~= entries@);
        if wf_snapshot(entries@) {
            assert(last == entries@.len());
        }
    }
    nodes
}

/// How many files lie anywhere under a node.
pub open spec fn node_file_count(n: FsNode) -> int
    decreases n,
{
    match n {
        FsNode::File { .. } => 1,
        FsNode::Dir { children, .. } => forest_file_count(children@),
    }
}

/// How many files lie anywhere under a sequence of sibling nodes.
pub open spec fn forest_file_count(s: Seq<FsNode>) -> int
    decreases s,
{
    if s.len() == 0 {
        0
    } else {
        node_file_count(s[0]) + forest_file_count(s.drop_first())
    }
}

pub proof fn lemma_node_file_count_nonneg(n: FsNode)
    ensures
        node_file_count(n) >= 0,
    decreases n,
{
    match n {
        FsNode::File { .. } => {}
        FsNode::Dir { children, .. } => {
            lemma_forest_file_count_nonneg(children@);
        }
    }
}

pub proof fn lemma_forest_file_count_nonneg(s: Seq<FsNode>)
    ensures
        forest_file_count(s) >= 0,
    decreases s,
{
    if s.len() > 0 {
        lemma_node_file_count_nonneg(s[0]);
        lemma_forest_file_count_nonneg(s.drop_first());
    }
}

pub proof fn lemma_forest_file_count_take_succ(s: Seq<FsNode>, i: int)
    requires
        0 <= i < s.len(),
    ensures
        forest_file_count(s.take(i + 1)) == forest_file_count(s.take(i)) + node_file_count(s[i]),
    decreases i,
{
    if i == 0 {
        assert(s.take(1).drop_first() =~= s.take(0));
        assert(s.take(1)[0] == s[0]);
    } else {
        let t = s.drop_first();
        assert(s.take(i + 1).drop_first() =~= t.take(i));
        assert(s.take(i).drop_first() =~= t.take(i - 1));
        assert(s.take(i + 1)[0] == s[0]);
        assert(s.take(i)[0] == s[0]);
        lemma_forest_file_count_take_succ(t, i - 1);
        assert(t[i - 1] == s[i]);
    }
}

/// A prefix of siblings never holds more files than the whole sequence.
pub proof fn lemma_forest_file_count_take_le(s: Seq<FsNode>, i: int)
    requires
        0 <= i <= s.len(),
    ensures
        forest_file_count(s.take(i)) <= forest_file_count(s),
    decreases s.len() - i,
{
    if i == s.len() {
        assert(s.take(i) =~= s);
    } else {
        lemma_forest_file_count_take_succ(s, i);
        lemma_node_file_count_nonneg(s[i]);
        lemma_forest_file_count_take_le(s, i + 1);
    }
}

/// Whether siblings sitting inside a directory at `depth` keep every
/// directory of their subtrees within the depth bound `max`.
pub open spec fn fits_depth(s: Seq<FsNode>, depth: int, max: int) -> bool
    decreases s,
{
    if s.len() == 0 {
        true
    } else {
        (match s[0] {
            FsNode::File { .. } => true,
            FsNode::Dir { children, .. } => depth < max && fits_depth(children@, depth + 1, max),
        }) && fits_depth(s.drop_first(), depth, max)
    }
}

pub proof fn lemma_fits_depth_index(s: Seq<FsNode>, depth: int, max: int, i: int)
    requires
        fits_depth(s, depth, max),
        0 <= i < s.len(),
    ensures
        s[i] matches FsNode::Dir { children, .. } ==> depth < max && fits_depth(
            children@,
            depth + 1,
            max,
        ),
    decreases i,
{
    if i > 0 {
        lemma_fits_depth_index(s.drop_first(), depth, max, i - 1);
        assert(s.drop_first()[i - 1] == s[i]);
    }
}

} // verus!
