//! Bounded size estimation: sums the byte sizes of files under a directory,
//! giving up on subtrees deeper than `max_depth` and stopping the whole
//! estimate once more than `max_files` files have been counted. The
//! traversal is mirrored step for step by `spec_est_forest`, so the
//! contract fixes the result completely — capped runs included: files in
//! directories past the depth bound contribute nothing, and once the file
//! cap fires nothing more is added. The result never overstates the
//! tree's true size and is exact when no bound was hit.

use vstd::prelude::*;
use crate::ScanBounds;
use crate::fs_data::FsNode;
use crate::fs_data::node_size;
use crate::fs_data::forest_size;
use crate::fs_data::lemma_node_size_nonneg;
use crate::fs_data::lemma_forest_size_nonneg;
use crate::fs_data::lemma_forest_size_take_succ;
use crate::fs_data::lemma_forest_size_take_le;
use crate::fs_data::forest_file_count;
use crate::fs_data::fits_depth;
use crate::fs_data::lemma_forest_file_count_nonneg;
use crate::fs_data::lemma_forest_file_count_take_succ;
use crate::fs_data::lemma_forest_file_count_take_le;
use crate::fs_data::lemma_fits_depth_index;
use crate::fs_data::RawEntry;
use crate::fs_data::entries_size_sum;
use crate::fs_data::lemma_entries_size_sum_nonneg;
use crate::fs_data::build_forest;

verus! {

broadcast use vstd::seq::group_seq_axioms, vstd::std_specs::vec::group_vec_axioms;

/// Addition of byte counts that tops out at the largest representable
/// value instead of wrapping.
pub open spec fn sat_add(a: int, b: int) -> int {
    if a + b > u64::MAX { u64::MAX as int } else { a + b }
}

/// A tree the bounds allow in full: no directory of it lies past the
/// depth bound, and it holds no more files than the file cap. Estimating
/// such a tree hits no bound and reports its exact size.
pub open spec fn within_bounds(root: FsNode, bounds: ScanBounds) -> bool {
    match root {
        FsNode::File { .. } => true,
        FsNode::Dir { children, .. } => fits_depth(children@, 0, bounds.max_depth as int)
            && forest_file_count(children@) <= bounds.max_files as int,
    }
}

/// Running state of one estimation: the byte total so far, how many files
/// have been counted, whether the file cap stopped the traversal, and
/// whether any bound was hit at all.
pub struct EstState {
    pub total: u64,
    pub files: usize,
    pub stopped: bool,
    pub capped: bool,
}

/// What one traversal step does to the estimation state: a stopped
/// estimate stays put; once more than `max_files` files have been
/// counted everything stops; a file adds its size (saturating) and is
/// counted; a directory past the depth bound is skipped and marks the
/// estimate capped, one within it is walked in full.
pub open spec fn spec_est_node(n: FsNode, depth: int, bounds: ScanBounds, st: EstState) -> EstState
    decreases n,
{
    if st.stopped {
        st
    } else if st.files > bounds.max_files {
        EstState { total: st.total, files: st.files, stopped: true, capped: true }
    } else {
        match n {
            FsNode::File { size, .. } => EstState {
                total: if st.total + size > u64::MAX {
                    u64::MAX
                } else {
                    (st.total + size) as u64
                },
                files: if st.files < usize::MAX {
                    (st.files + 1) as usize
                } else {
                    st.files
                },
                stopped: st.stopped,
                capped: st.capped,
            },
            FsNode::Dir { children, .. } => {
                if depth >= bounds.max_depth as int {
                    EstState { total: st.total, files: st.files, stopped: st.stopped, capped: true }
                } else {
                    spec_est_forest(children@, depth + 1, bounds, st)
                }
            },
        }
    }
}

/// The estimation state after walking a sequence of siblings (children of
/// a directory at `depth`) in order, threading the state through
/// `spec_est_node` one node at a time.
pub open spec fn spec_est_forest(
    s: Seq<FsNode>,
    depth: int,
    bounds: ScanBounds,
    st: EstState,
) -> EstState
    decreases s,
{
    if s.len() == 0 {
        st
    } else {
        spec_est_forest(s.drop_first(), depth, bounds, spec_est_node(s[0], depth, bounds, st))
    }
}

proof fn lemma_est_forest_take_succ(
    s: Seq<FsNode>,
    depth: int,
    bounds: ScanBounds,
    st: EstState,
    i: int,
)
    requires
        0 <= i < s.len(),
    ensures
        spec_est_forest(s.take(i + 1), depth, bounds, st) == spec_est_node(
            s[i],
            depth,
            bounds,
            spec_est_forest(s.take(i), depth, bounds, st),
        ),
    decreases i,
{
    if i == 0 {
        let st1 = spec_est_node(s[0], depth, bounds, st);
        assert(s.take(1).drop_first() =~= Seq::<FsNode>::empty());
        assert(s.take(1)[0] == s[0]);
        assert(s.take(0) =~= Seq::<FsNode>::empty());
        assert(spec_est_forest(s.take(0), depth, bounds, st) == st);
        assert(spec_est_forest(Seq::<FsNode>::empty(), depth, bounds, st1) == st1);
        assert(spec_est_forest(s.take(1), depth, bounds, st) == spec_est_forest(
            s.take(1).drop_first(),
            depth,
            bounds,
            spec_est_node(s.take(1)[0], depth, bounds, st),
        ));
    } else {
        let t = s.drop_first();
        let st1 = spec_est_node(s[0], depth, bounds, st);
        assert(s.take(i + 1).drop_first() =~= t.take(i));
        assert(s.take(i).drop_first() =~= t.take(i - 1));
        assert(s.take(i + 1)[0] == s[0]);
        assert(s.take(i)[0] == s[0]);
        lemma_est_forest_take_succ(t, depth, bounds, st1, i - 1);
        assert(t[i - 1] == s[i]);
    }
}

proof fn lemma_est_forest_stopped(s: Seq<FsNode>, depth: int, bounds: ScanBounds, st: EstState)
    requires
        st.stopped,
    ensures
        spec_est_forest(s, depth, bounds, st) == st,
    decreases s,
{
    if s.len() > 0 {
        assert(spec_est_node(s[0], depth, bounds, st) == st);
        lemma_est_forest_stopped(s.drop_first(), depth, bounds, st);
    }
}

proof fn lemma_est_forest_split(
    s: Seq<FsNode>,
    depth: int,
    bounds: ScanBounds,
    st: EstState,
    i: int,
)
    requires
        0 <= i <= s.len(),
    ensures
        spec_est_forest(s, depth, bounds, st) == spec_est_forest(
            s.skip(i),
            depth,
            bounds,
            spec_est_forest(s.take(i), depth, bounds, st),
        ),
    decreases i,
{
    if i == 0 {
        assert(s.take(0) =~= Seq::<FsNode>::empty());
        assert(s.skip(0) =~= s);
    } else {
        let t = s.drop_first();
        let st1 = spec_est_node(s[0], depth, bounds, st);
        lemma_est_forest_split(t, depth, bounds, st1, i - 1);
        assert(s.take(i)[0] == s[0]);
        assert(s.take(i).drop_first() =~= t.take(i - 1));
        assert(s.skip(i) =~= t.skip(i - 1));
    }
}

/// Once more than `max_files` files have been counted a step stops the
/// whole traversal, so no run that starts within the cap ever counts
/// more than `max_files + 1` files.
pub proof fn lemma_est_node_files_bounded(n: FsNode, depth: int, bounds: ScanBounds, st: EstState)
    requires
        st.files as int <= bounds.max_files as int + 1,
    ensures
        spec_est_node(n, depth, bounds, st).files as int <= bounds.max_files as int + 1,
    decreases n,
{
    if !st.stopped && st.files <= bounds.max_files {
        match n {
            FsNode::File { .. } => {},
            FsNode::Dir { children, .. } => {
                if depth < bounds.max_depth as int {
                    lemma_est_forest_files_bounded(children@, depth + 1, bounds, st);
                }
            },
        }
    }
}

/// The whole-run form of the file-cap bound: a traversal that starts
/// within the cap ends within `max_files + 1` counted files.
pub proof fn lemma_est_forest_files_bounded(
    s: Seq<FsNode>,
    depth: int,
    bounds: ScanBounds,
    st: EstState,
)
    requires
        st.files as int <= bounds.max_files as int + 1,
    ensures
        spec_est_forest(s, depth, bounds, st).files as int <= bounds.max_files as int + 1,
    decreases s,
{
    if s.len() > 0 {
        lemma_est_node_files_bounded(s[0], depth, bounds, st);
        lemma_est_forest_files_bounded(
            s.drop_first(),
            depth,
            bounds,
            spec_est_node(s[0], depth, bounds, st),
        );
    }
}

/// Walks the children of a directory that sits at `depth`, accumulating
/// file sizes into `st`, exactly as `spec_est_forest` states.
fn est_children(children: &Vec<FsNode>, depth: usize, bounds: &ScanBounds, st: &mut EstState)
    ensures
        *final(st) == spec_est_forest(children@, depth as int, *bounds, *old(st)),
        final(st).total >= old(st).total,
        final(st).total as int <= sat_add(old(st).total as int, forest_size(children@)),
        old(st).stopped ==> *final(st) == *old(st),
        old(st).capped ==> final(st).capped,
        final(st).stopped ==> final(st).capped || old(st).stopped,
        !final(st).capped && !old(st).stopped ==> final(st).total as int == sat_add(
            old(st).total as int,
            forest_size(children@),
        ) && !final(st).stopped,
        !old(st).capped && !old(st).stopped && fits_depth(
            children@,
            depth as int,
            bounds.max_depth as int,
        ) && old(st).files + forest_file_count(children@) <= bounds.max_files
            ==> !final(st).capped && final(st).files == old(st).files + forest_file_count(
            children@,
        ),
    decreases children,
{
    if st.stopped {
        proof {
            lemma_forest_size_nonneg(children@);
            lemma_est_forest_stopped(children@, depth as int, *bounds, *st);
        }
        return;
    }
    let ghost st0 = *st;
    let mut i: usize = 0;
    while i < children.len() && !st.stopped
        invariant
            0 <= i <= children.len(),
            !st0.stopped,
            *st == spec_est_forest(children@.take(i as int), depth as int, *bounds, st0),
            st.total >= st0.total,
            st.total as int <= sat_add(st0.total as int, forest_size(children@.take(i as int))),
            st0.capped ==> st.capped,
            st.stopped ==> st.capped,
            !st.capped ==> st.total as int == sat_add(
                st0.total as int,
                forest_size(children@.take(i as int)),
            ) && !st.stopped,
            st0.capped == false && fits_depth(children@, depth as int, bounds.max_depth as int)
                && st0.files + forest_file_count(children@) <= bounds.max_files ==> !st.capped
                && st.files == st0.files + forest_file_count(children@.take(i as int)),
        decreases children.len() - i,
    {
        let ghost st_head = *st;
        proof {
            lemma_forest_size_take_succ(children@, i as int);
            lemma_node_size_nonneg(children@[i as int]);
            lemma_forest_size_nonneg(children@.take(i as int));
            lemma_forest_file_count_take_succ(children@, i as int);
            lemma_forest_file_count_take_le(children@, i as int);
            lemma_forest_file_count_take_le(children@, i + 1 as int);
            lemma_est_forest_take_succ(children@, depth as int, *bounds, st0, i as int);
            if fits_depth(children@, depth as int, bounds.max_depth as int) {
                lemma_fits_depth_index(children@, depth as int, bounds.max_depth as int, i as int);
            }
        }
        if st.files > bounds.max_files {
            st.capped = true;
            st.stopped = true;
        } else {
            match &children[i] {
                FsNode::File { size, .. } => {
                    st.total = st.total.saturating_add(*size);
                    if st.files < usize::MAX {
                        st.files = st.files + 1;
                    }
                },
                FsNode::Dir { children: kids, .. } => {
                    if depth >= bounds.max_depth {
                        st.capped = true;
                    } else {
                        proof {
                            lemma_forest_size_nonneg(kids@);
                        }
                        est_children(kids, depth + 1, bounds, st);
                    }
                },
            }
        }
        proof {
            assert(*st == spec_est_node(children@[i as int], depth as int, *bounds, st_head));
        }
        i = i + 1;
    }
    proof {
        if i == children.len() {
            assert(children@.take(i as int) =~= children@);
        } else {
            lemma_forest_size_take_le(children@, i as int);
            lemma_forest_file_count_take_le(children@, i as int);
            lemma_est_forest_split(children@, depth as int, *bounds, st0, i as int);
            lemma_est_forest_stopped(children@.skip(i as int), depth as int, *bounds, *st);
        }
    }
}

/// The estimation state a full run over `root` ends in, starting from an
/// empty state. A plain file at the root is not a directory to sum, so
/// it yields the empty state.
pub open spec fn spec_estimate_tree(root: FsNode, bounds: ScanBounds) -> EstState {
    match root {
        FsNode::File { .. } => EstState { total: 0, files: 0, stopped: false, capped: false },
        FsNode::Dir { children, .. } => spec_est_forest(
            children@,
            0,
            bounds,
            EstState { total: 0, files: 0, stopped: false, capped: false },
        ),
    }
}

/// Estimates the bytes held under `root`. Returns the estimated total and
/// whether a bound was hit, in which case the total may understate the
/// tree. The pair equals exactly what the step-by-step traversal spec
/// (`spec_estimate_tree`) computes; in particular the estimate never
/// overstates the true size, is exact when no bound was hit (and the
/// true size is representable), and a tree within the bounds is never
/// reported capped.
pub fn estimate_tree(root: &FsNode, bounds: &ScanBounds) -> (r: (u64, bool))
    ensures
        r.0 == spec_estimate_tree(*root, *bounds).total,
        r.1 == spec_estimate_tree(*root, *bounds).capped,
        root is File ==> r.0 == 0,
        root is Dir ==> r.0 as int <= node_size(*root),
        root is Dir && !r.1 && node_size(*root) <= u64::MAX ==> r.0 as int == node_size(*root),
        within_bounds(*root, *bounds) ==> !r.1,
{
    match root {
        FsNode::File { .. } => (0, false),
        FsNode::Dir { children, .. } => {
            let mut st = EstState { total: 0, files: 0, stopped: false, capped: false };
            est_children(children, 0, bounds, &mut st);
            (st.total, st.capped)
        },
    }
}

/// Sums a snapshot within the bounds: the snapshot's tree is built (see
/// `build_forest` for what the tree holds of the snapshot) and estimated
/// by `estimate_tree`. The result never exceeds the bytes the snapshot's
/// regular-file entries report.
pub fn estimate_snapshot(entries: &Vec<RawEntry>, bounds: &ScanBounds) -> (r: u64)
    ensures
        r as int <= entries_size_sum(entries@),
{
    proof {
        lemma_entries_size_sum_nonneg(entries@);
    }
    let forest = build_forest(entries);
    if forest.len() == 0 {
        return 0;
    }
    let (total, _) = estimate_tree(&forest[0], bounds);
    proof {
        lemma_node_size_nonneg(forest@[0]);
        lemma_forest_size_nonneg(forest@.drop_first());
        assert(forest_size(forest@) == node_size(forest@[0]) + forest_size(forest@.drop_first()));
    }
    total
}

/// Estimates the bytes held by files under the directory at `path` on
/// disk, within `bounds`: a snapshot of the tree is taken (no deeper
/// than the traversal could use) and `estimate_snapshot` sums it. The
/// result depends on the disk at the moment of the call, so nothing of
/// it can be promised here; what is computed from the snapshot is fixed
/// by `estimate_snapshot`'s own contract. Never fails: a path that does
/// not exist, or cannot be read, yields an empty snapshot and so 0.
pub fn estimate(path: &String, bounds: &ScanBounds) -> (r: u64) {
    let cap = bounds.max_depth.saturating_add(1);
    let entries = crate::fs_read::walk_tree(path, Some(cap));
    estimate_snapshot(&entries, bounds)
}

} // verus!
