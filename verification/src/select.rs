//! The selection engine: reduces the candidate list to the final deletion
//! set. Dry runs and non-interactive sessions select nothing; an explicit
//! no-confirm flag selects everything; otherwise the operator's finite
//! interaction — clean all, pick some, review each one, or cancel —
//! determines the subset, with every confirmation defaulting to the safe
//! negative answer.

use vstd::prelude::*;
use crate::preview::Candidate;

verus! {

broadcast use vstd::seq::group_seq_axioms, vstd::std_specs::vec::group_vec_axioms;

/// The operator's verdict on one candidate during per-project review.
#[derive(Clone, Copy)]
pub enum ReviewAction {
    Clean,
    Skip,
    Abort,
}

/// One complete interactive exchange, reduced to the answers given: which
/// top-level mode was chosen and what was answered inside it. Each
/// `confirmed` is the final yes/no confirmation, `false` when the
/// operator accepted the default.
pub enum SelectionChoice {
    CleanAll { confirmed: bool },
    PickSome { indices: Vec<usize>, confirmed: bool },
    ReviewEach { actions: Vec<ReviewAction>, confirmed: bool },
    Cancel,
}

/// The candidates picked by a list of toggled indices, in toggle order;
/// an index out of range picks nothing. The multi-pick prompt yields its
/// indices strictly ascending, so a selection never repeats a candidate;
/// `select_projects` requires that of its caller.
pub open spec fn spec_picked(projects: Seq<Candidate>, indices: Seq<usize>) -> Seq<Candidate>
    decreases indices,
{
    if indices.len() == 0 {
        Seq::empty()
    } else {
        (if (indices[0] as int) < projects.len() {
            seq![projects[indices[0] as int]]
        } else {
            Seq::empty()
        }) + spec_picked(projects, indices.drop_first())
    }
}

/// Whether the operator aborted the review anywhere along the way.
pub open spec fn has_abort(actions: Seq<ReviewAction>) -> bool {
    exists|i: int| 0 <= i < actions.len() && actions[i] is Abort
}

/// The candidates accepted during an abort-free review: those whose
/// action was to clean, in order.
pub open spec fn spec_reviewed(projects: Seq<Candidate>, actions: Seq<ReviewAction>) -> Seq<
    Candidate,
>
    decreases projects,
{
    if projects.len() == 0 || actions.len() == 0 {
        Seq::empty()
    } else {
        (if actions[0] is Clean {
            seq![projects[0]]
        } else {
            Seq::empty()
        }) + spec_reviewed(projects.drop_first(), actions.drop_first())
    }
}

/// The deletion set a selection run produces. An empty candidate list, a
/// dry run, a non-interactive session, a cancel, an aborted review, an
/// empty pick, or any confirmation left at its default all yield the
/// empty set; only an explicit confirmed choice yields candidates.
pub open spec fn spec_select(
    projects: Seq<Candidate>,
    dry_run: bool,
    no_confirm: bool,
    interactive: bool,
    choice: SelectionChoice,
) -> Seq<Candidate> {
    if projects.len() == 0 {
        Seq::empty()
    } else if dry_run {
        Seq::empty()
    } else if no_confirm {
        projects
    } else if !interactive {
        Seq::empty()
    } else {
        match choice {
            SelectionChoice::CleanAll { confirmed } => if confirmed {
                projects
            } else {
                Seq::empty()
            },
            SelectionChoice::PickSome { indices, confirmed } => {
                let picked = spec_picked(projects, indices@);
                if picked.len() > 0 && confirmed {
                    picked
                } else {
                    Seq::empty()
                }
            },
            SelectionChoice::ReviewEach { actions, confirmed } => {
                if has_abort(actions@) {
                    Seq::empty()
                } else {
                    let kept = spec_reviewed(projects, actions@);
                    if kept.len() > 0 && confirmed {
                        kept
                    } else {
                        Seq::empty()
                    }
                }
            },
            SelectionChoice::Cancel => Seq::empty(),
        }
    }
}

fn clone_candidate(c: &Candidate) -> (r: Candidate)
    ensures
        r == *c,
{
    Candidate { path: c.path.clone(), cmd_name: c.cmd_name.clone(), size: c.size }
}

fn clone_candidates(projects: &Vec<Candidate>) -> (r: Vec<Candidate>)
    ensures
        r@ == projects@,
{
    let mut out: Vec<Candidate> = Vec::new();
    let mut i: usize = 0;
    while i < projects.len()
        invariant
            0 <= i <= projects@.len(),
            out@ == projects@.take(i as int),
        decreases projects@.len() - i,
    {
        out.push(clone_candidate(&projects[i]));
        proof {
            assert(out@ =~= projects@.take(i + 1 as int));
        }
        i = i + 1;
    }
    proof {
        assert(projects@.take(projects@.len() as int) =~= projects@);
    }
    out
}

proof fn lemma_picked_take_succ(projects: Seq<Candidate>, indices: Seq<usize>, i: int)
    requires
        0 <= i < indices.len(),
    ensures
        spec_picked(projects, indices.take(i + 1)) == spec_picked(projects, indices.take(i)) + (
        if (indices[i] as int) < projects.len() {
            seq![projects[indices[i] as int]]
        } else {
            Seq::<Candidate>::empty()
        }),
    decreases i,
{
    if i == 0 {
        assert(indices.take(1).drop_first() =~= indices.take(0));
        assert(indices.take(1)[0] == indices[0]);
        assert(spec_picked(projects, indices.take(0)) =~= Seq::<Candidate>::empty());
        assert(spec_picked(projects, indices.take(1)) =~= (if (indices[0] as int)
            < projects.len() {
            seq![projects[indices[0] as int]]
        } else {
            Seq::<Candidate>::empty()
        }));
    } else {
        let t = indices.drop_first();
        assert(indices.take(i + 1).drop_first() =~= t.take(i));
        assert(indices.take(i).drop_first() =~= t.take(i - 1));
        assert(indices.take(i + 1)[0] == indices[0]);
        assert(indices.take(i)[0] == indices[0]);
        lemma_picked_take_succ(projects, t, i - 1);
        assert(t[i - 1] == indices[i]);
        assert(spec_picked(projects, indices.take(i + 1)) =~= spec_picked(
            projects,
            indices.take(i),
        ) + (if (indices[i] as int) < projects.len() {
            seq![projects[indices[i] as int]]
        } else {
            Seq::<Candidate>::empty()
        }));
    }
}

fn pick_by_indices(projects: &Vec<Candidate>, indices: &Vec<usize>) -> (r: Vec<Candidate>)
    ensures
        r@ == spec_picked(projects@, indices@),
{
    let mut out: Vec<Candidate> = Vec::new();
    let mut j: usize = 0;
    while j < indices.len()
        invariant
            0 <= j <= indices@.len(),
            out@ == spec_picked(projects@, indices@.take(j as int)),
        decreases indices@.len() - j,
    {
        proof {
            lemma_picked_take_succ(projects@, indices@, j as int);
        }
        let ix = indices[j];
        if ix < projects.len() {
            out.push(clone_candidate(&projects[ix]));
        }
        j = j + 1;
    }
    proof {
        assert(indices@.take(indices@.len() as int) =~= indices@);
    }
    out
}

fn find_abort(actions: &Vec<ReviewAction>) -> (r: bool)
    ensures
        r == has_abort(actions@),
{
    let mut i: usize = 0;
    while i < actions.len()
        invariant
            0 <= i <= actions@.len(),
            forall|k: int| 0 <= k < i ==> !(actions@[k] is Abort),
        decreases actions@.len() - i,
    {
        let is_abort = match &actions[i] {
            ReviewAction::Abort => true,
            _ => false,
        };
        if is_abort {
            return true;
        }
        i = i + 1;
    }
    false
}

proof fn lemma_reviewed_take_succ(projects: Seq<Candidate>, actions: Seq<ReviewAction>, i: int)
    requires
        0 <= i < projects.len(),
        0 <= i < actions.len(),
    ensures
        spec_reviewed(projects.take(i + 1), actions.take(i + 1)) == spec_reviewed(
            projects.take(i),
            actions.take(i),
        ) + (if actions[i] is Clean {
            seq![projects[i]]
        } else {
            Seq::<Candidate>::empty()
        }),
    decreases i,
{
    if i == 0 {
        assert(projects.take(1).drop_first() =~= projects.take(0));
        assert(actions.take(1).drop_first() =~= actions.take(0));
        assert(projects.take(1)[0] == projects[0]);
        assert(spec_reviewed(projects.take(0), actions.take(0)) =~= Seq::<Candidate>::empty());
        assert(spec_reviewed(projects.take(1), actions.take(1)) =~= (if actions[0] is Clean {
            seq![projects[0]]
        } else {
            Seq::<Candidate>::empty()
        }));
    } else {
        let pt = projects.drop_first();
        let at = actions.drop_first();
        assert(projects.take(i + 1).drop_first() =~= pt.take(i));
        assert(actions.take(i + 1).drop_first() =~= at.take(i));
        assert(projects.take(i).drop_first() =~= pt.take(i - 1));
        assert(actions.take(i).drop_first() =~= at.take(i - 1));
        assert(projects.take(i + 1)[0] == projects[0]);
        assert(projects.take(i)[0] == projects[0]);
        assert(actions.take(i + 1)[0] == actions[0]);
        assert(actions.take(i)[0] == actions[0]);
        lemma_reviewed_take_succ(pt, at, i - 1);
        assert(pt[i - 1] == projects[i]);
        assert(at[i - 1] == actions[i]);
        assert(spec_reviewed(projects.take(i + 1), actions.take(i + 1)) =~= spec_reviewed(
            projects.take(i),
            actions.take(i),
        ) + (if actions[i] is Clean {
            seq![projects[i]]
        } else {
            Seq::<Candidate>::empty()
        }));
    }
}

proof fn lemma_reviewed_stops_at_actions(projects: Seq<Candidate>, actions: Seq<ReviewAction>)
    requires
        actions.len() <= projects.len(),
    ensures
        spec_reviewed(projects, actions) == spec_reviewed(
            projects.take(actions.len() as int),
            actions,
        ),
    decreases projects,
{
    if projects.len() > 0 && actions.len() > 0 {
        lemma_reviewed_stops_at_actions(projects.drop_first(), actions.drop_first());
        assert(projects.take(actions.len() as int).drop_first() =~= projects.drop_first().take(
            actions.len() - 1,
        ));
        assert(projects.take(actions.len() as int)[0] == projects[0]);
    } else {
        assert(spec_reviewed(projects, actions) =~= Seq::<Candidate>::empty());
        assert(spec_reviewed(projects.take(actions.len() as int), actions)
            =~= Seq::<Candidate>::empty());
    }
}

fn review_kept(projects: &Vec<Candidate>, actions: &Vec<ReviewAction>) -> (r: Vec<Candidate>)
    ensures
        r@ == spec_reviewed(projects@, actions@),
{
    let mut out: Vec<Candidate> = Vec::new();
    let mut i: usize = 0;
    let n = if actions.len() < projects.len() {
        actions.len()
    } else {
        projects.len()
    };
    while i < n
        invariant
            0 <= i <= n,
            n == if actions@.len() < projects@.len() {
                actions@.len()
            } else {
                projects@.len()
            },
            out@ == spec_reviewed(projects@.take(i as int), actions@.take(i as int)),
        decreases n - i,
    {
        proof {
            lemma_reviewed_take_succ(projects@, actions@, i as int);
        }
        let keep = match &actions[i] {
            ReviewAction::Clean => true,
            _ => false,
        };
        if keep {
            out.push(clone_candidate(&projects[i]));
        }
        i = i + 1;
    }
    proof {
        if actions@.len() < projects@.len() {
            lemma_reviewed_stops_at_actions(projects@, actions@);
            assert(actions@.take(n as int) =~= actions@);
        } else {
            assert(projects@.take(n as int) =~= projects@);
            if actions@.len() > projects@.len() {
                assert(spec_reviewed(projects@, actions@.take(n as int)) == spec_reviewed(
                    projects@,
                    actions@,
                )) by {
                    lemma_reviewed_ignores_extra_actions(projects@, actions@);
                }
            } else {
                assert(actions@.take(n as int) =~= actions@);
            }
        }
    }
    out
}

proof fn lemma_reviewed_ignores_extra_actions(projects: Seq<Candidate>, actions: Seq<ReviewAction>)
    requires
        actions.len() >= projects.len(),
    ensures
        spec_reviewed(projects, actions.take(projects.len() as int)) == spec_reviewed(
            projects,
            actions,
        ),
    decreases projects,
{
    if projects.len() > 0 {
        lemma_reviewed_ignores_extra_actions(projects.drop_first(), actions.drop_first());
        assert(actions.take(projects.len() as int).drop_first() =~= actions.drop_first().take(
            projects.len() - 1,
        ));
        assert(actions.take(projects.len() as int)[0] == actions[0]);
    } else {
        assert(spec_reviewed(projects, actions.take(0)) =~= Seq::<Candidate>::empty());
        assert(spec_reviewed(projects, actions) =~= Seq::<Candidate>::empty());
    }
}

/// Reduces the candidate list to the final deletion set, exactly as
/// `spec_select` states: nothing on a dry run, everything under
/// no-confirm, nothing without a terminal, and otherwise whatever the
/// operator's choice confirmed — with every default answer the safe one.
pub fn select_projects(
    projects: &Vec<Candidate>,
    dry_run: bool,
    no_confirm: bool,
    interactive: bool,
    choice: &SelectionChoice,
) -> (r: Vec<Candidate>)
    requires
        choice matches SelectionChoice::PickSome { indices, .. } ==> forall|j: int, k: int|
            0 <= j < k < indices@.len() ==> indices@[j] < indices@[k],
    ensures
        r@ == spec_select(projects@, dry_run, no_confirm, interactive, *choice),
{
    if projects.len() == 0 {
        return Vec::new();
    }
    if dry_run {
        return Vec::new();
    }
    if no_confirm {
        return clone_candidates(projects);
    }
    if !interactive {
        return Vec::new();
    }
    match choice {
        SelectionChoice::CleanAll { confirmed } => {
            if *confirmed {
                clone_candidates(projects)
            } else {
                Vec::new()
            }
        },
        SelectionChoice::PickSome { indices, confirmed } => {
            let picked = pick_by_indices(projects, indices);
            if picked.len() > 0 && *confirmed {
                picked
            } else {
                Vec::new()
            }
        },
        SelectionChoice::ReviewEach { actions, confirmed } => {
            if find_abort(actions) {
                return Vec::new();
            }
            let kept = review_kept(projects, actions);
            if kept.len() > 0 && *confirmed {
                kept
            } else {
                Vec::new()
            }
        },
        SelectionChoice::Cancel => Vec::new(),
    }
}

} // verus!
