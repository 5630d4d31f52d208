//! The deletion preview: pairs each detected project with its estimated
//! size, discards the ones with nothing to clean (size exactly zero), and
//! sums what the survivors would free.

use vstd::prelude::*;
use crate::ScanBounds;
use crate::cmd::Cmd;
use crate::detect::DetectedProject;
use crate::detect::detect_forest;
use crate::estimate::estimate;
use crate::estimate::sat_add;

verus! {

broadcast use vstd::seq::group_seq_axioms, vstd::std_specs::vec::group_vec_axioms;

/// A project proposed for cleaning: its directory, the command that
/// claims it, and its estimated size in bytes (always strictly positive).
pub struct Candidate {
    pub path: String,
    pub cmd_name: String,
    pub size: u64,
}

/// The candidates kept from a detection run, given the size estimated for
/// each detected project: those with a strictly positive size, in order.
pub open spec fn spec_candidates(det: Seq<DetectedProject>, sizes: Seq<u64>) -> Seq<
    (Seq<char>, Seq<char>, u64),
>
    decreases det,
{
    if det.len() == 0 || sizes.len() == 0 {
        Seq::empty()
    } else {
        (if sizes[0] > 0 {
            seq![(det[0].path@, det[0].cmd_name@, sizes[0])]
        } else {
            Seq::empty()
        }) + spec_candidates(det.drop_first(), sizes.drop_first())
    }
}

proof fn lemma_candidates_take_succ(det: Seq<DetectedProject>, sizes: Seq<u64>, i: int)
    requires
        0 <= i < det.len(),
        det.len() == sizes.len(),
    ensures
        spec_candidates(det.take(i + 1), sizes.take(i + 1)) == spec_candidates(
            det.take(i),
            sizes.take(i),
        ) + (if sizes[i] > 0 {
            seq![(det[i].path@, det[i].cmd_name@, sizes[i])]
        } else {
            Seq::<(Seq<char>, Seq<char>, u64)>::empty()
        }),
    decreases i,
{
    if i == 0 {
        assert(det.take(1).drop_first() =~= det.take(0));
        assert(sizes.take(1).drop_first() =~= sizes.take(0));
        assert(det.take(1)[0] == det[0]);
        assert(spec_candidates(det.take(0), sizes.take(0)) =~= Seq::empty());
        assert(spec_candidates(det.take(1), sizes.take(1)) =~= (if sizes[0] > 0 {
            seq![(det[0].path@, det[0].cmd_name@, sizes[0])]
        } else {
            Seq::<(Seq<char>, Seq<char>, u64)>::empty()
        }));
    } else {
        let dt = det.drop_first();
        let st = sizes.drop_first();
        assert(det.take(i + 1).drop_first() =~= dt.take(i));
        assert(sizes.take(i + 1).drop_first() =~= st.take(i));
        assert(det.take(i).drop_first() =~= dt.take(i - 1));
        assert(sizes.take(i).drop_first() =~= st.take(i - 1));
        assert(det.take(i + 1)[0] == det[0]);
        assert(det.take(i)[0] == det[0]);
        assert(sizes.take(i + 1)[0] == sizes[0]);
        assert(sizes.take(i)[0] == sizes[0]);
        lemma_candidates_take_succ(dt, st, i - 1);
        assert(dt[i - 1] == det[i]);
        assert(st[i - 1] == sizes[i]);
        assert(spec_candidates(det.take(i + 1), sizes.take(i + 1)) =~= spec_candidates(
            det.take(i),
            sizes.take(i),
        ) + (if sizes[i] > 0 {
            seq![(det[i].path@, det[i].cmd_name@, sizes[i])]
        } else {
            Seq::<(Seq<char>, Seq<char>, u64)>::empty()
        }));
    }
}

/// Keeps the detected projects whose estimated size is strictly positive;
/// a size of zero means there is nothing to clean there.
pub fn build_candidates(det: &Vec<DetectedProject>, sizes: &Vec<u64>) -> (r: Vec<Candidate>)
    requires
        det@.len() == sizes@.len(),
    ensures
        r@.len() == spec_candidates(det@, sizes@).len(),
        forall|i: int|
            0 <= i < r@.len() ==> {
                let c = spec_candidates(det@, sizes@)[i];
                (#[trigger] r@[i]).path@ == c.0 && r@[i].cmd_name@ == c.1 && r@[i].size == c.2
            },
        forall|i: int| 0 <= i < r@.len() ==> (#[trigger] r@[i]).size > 0,
{
    let mut out: Vec<Candidate> = Vec::new();
    let mut i: usize = 0;
    while i < det.len()
        invariant
            0 <= i <= det@.len(),
            det@.len() == sizes@.len(),
            out@.len() == spec_candidates(det@.take(i as int), sizes@.take(i as int)).len(),
            forall|q: int|
                0 <= q < out@.len() ==> {
                    let c = spec_candidates(det@.take(i as int), sizes@.take(i as int))[q];
                    (#[trigger] out@[q]).path@ == c.0 && out@[q].cmd_name@ == c.1 && out@[q].size
                        == c.2
                },
            forall|q: int| 0 <= q < out@.len() ==> (#[trigger] out@[q]).size > 0,
        decreases det@.len() - i,
    {
        proof {
            lemma_candidates_take_succ(det@, sizes@, i as int);
        }
        if sizes[i] > 0 {
            out.push(
                Candidate {
                    path: det[i].path.clone(),
                    cmd_name: det[i].cmd_name.clone(),
                    size: sizes[i],
                },
            );
        }
        i = i + 1;
    }
    proof {
        assert(det@.take(det@.len() as int) =~= det@);
        assert(sizes@.take(sizes@.len() as int) =~= sizes@);
    }
    out
}

/// The exact sum of the candidates' sizes, as a mathematical integer.
pub open spec fn spec_total_size(c: Seq<Candidate>) -> int
    decreases c,
{
    if c.len() == 0 {
        0
    } else {
        c[0].size + spec_total_size(c.drop_first())
    }
}

proof fn lemma_total_size_take_succ(c: Seq<Candidate>, i: int)
    requires
        0 <= i < c.len(),
    ensures
        spec_total_size(c.take(i + 1)) == spec_total_size(c.take(i)) + c[i].size,
    decreases i,
{
    if i == 0 {
        assert(c.take(1).drop_first() =~= c.take(0));
        assert(c.take(1)[0] == c[0]);
    } else {
        let t = c.drop_first();
        assert(c.take(i + 1).drop_first() =~= t.take(i));
        assert(c.take(i).drop_first() =~= t.take(i - 1));
        assert(c.take(i + 1)[0] == c[0]);
        assert(c.take(i)[0] == c[0]);
        lemma_total_size_take_succ(t, i - 1);
        assert(t[i - 1] == c[i]);
    }
}

proof fn lemma_total_size_nonneg(c: Seq<Candidate>)
    ensures
        spec_total_size(c) >= 0,
    decreases c,
{
    if c.len() > 0 {
        lemma_total_size_nonneg(c.drop_first());
    }
}

/// Sums the candidates' sizes for reporting, topping out at the largest
/// representable value rather than wrapping.
pub fn total_candidate_size(c: &Vec<Candidate>) -> (r: u64)
    ensures
        r as int == sat_add(0, spec_total_size(c@)),
{
    proof {
        lemma_total_size_nonneg(c@);
    }
    let mut total: u64 = 0;
    let mut i: usize = 0;
    while i < c.len()
        invariant
            0 <= i <= c@.len(),
            total as int == sat_add(0, spec_total_size(c@.take(i as int))),
        decreases c@.len() - i,
    {
        proof {
            lemma_total_size_take_succ(c@, i as int);
            lemma_total_size_nonneg(c@.take(i as int));
        }
        total = total.saturating_add(c[i].size);
        i = i + 1;
    }
    proof {
        assert(c@.take(c@.len() as int) =~= c@);
    }
    total
}

/// Scans the tree under `dir` for projects of the given commands' kinds,
/// estimates each project's size within the given bounds, and keeps those
/// with something to clean. Every candidate returned has a strictly
/// positive estimated size; detection order is preserved. What comes of
/// a given snapshot is fixed by the legs: `detect_forest` and
/// `build_candidates` state their results exactly, and each size is
/// bounded by `estimate_snapshot`'s contract; only the snapshots
/// themselves depend on the disk.
pub fn scan_deletion_preview(
    dir: &String,
    commands: &Vec<Cmd>,
    exclude_dirs: &Vec<String>,
    max_directory_depth: usize,
    max_files_per_project: usize,
) -> (r: Vec<Candidate>)
    ensures
        forall|i: int| 0 <= i < r@.len() ==> (#[trigger] r@[i]).size > 0,
{
    let entries = crate::fs_read::walk_tree(dir, None);
    let forest = crate::fs_data::build_forest(&entries);
    let detected = detect_forest(&forest, commands, exclude_dirs);
    let bounds = ScanBounds::new(max_directory_depth, max_files_per_project);
    let mut sizes: Vec<u64> = Vec::new();
    let mut i: usize = 0;
    while i < detected.len()
        invariant
            0 <= i <= detected@.len(),
            sizes@.len() == i,
        decreases detected@.len() - i,
    {
        sizes.push(estimate(&detected[i].path, &bounds));
        i = i + 1;
    }
    build_candidates(&detected, &sizes)
}

} // verus!
