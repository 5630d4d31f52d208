use sweep::execute::CleanupOutcome;
use sweep::execute::ConcurrencyLimiter;
use sweep::execute::aggregate_outcomes;
use sweep::execute::freed_bytes;
use sweep::preview::Candidate;
use sweep::select::ReviewAction;
use sweep::select::SelectionChoice;
use sweep::select::select_projects;

fn candidate(path: &str, cmd: &str, size: u64) -> Candidate {
    Candidate { path: path.to_string(), cmd_name: cmd.to_string(), size }
}

fn sample() -> Vec<Candidate> {
    vec![
        candidate("/r/a", "nodejs", 5000),
        candidate("/r/b", "cargo", 300),
        candidate("/r/c", "cargo", 70),
    ]
}

#[test]
fn dry_run_selects_nothing() {
    // One 5 MiB candidate in dry-run mode: the selection is empty, so
    // nothing downstream can touch the filesystem.
    let projects = vec![candidate("/r/big", "nodejs", 5 * 1048576)];
    let choice = SelectionChoice::CleanAll { confirmed: true };
    let selected = select_projects(&projects, true, false, true, &choice);
    assert!(selected.is_empty());
}

#[test]
fn no_confirm_selects_all() {
    let projects = sample();
    let selected = select_projects(&projects, false, true, false, &SelectionChoice::Cancel);
    assert_eq!(selected.len(), 3);
    assert_eq!(selected[0].path, "/r/a");
    assert_eq!(selected[2].size, 70);
}

#[test]
fn non_interactive_selects_nothing() {
    let projects = sample();
    let choice = SelectionChoice::CleanAll { confirmed: true };
    let selected = select_projects(&projects, false, false, false, &choice);
    assert!(selected.is_empty());
}

#[test]
fn empty_candidates_select_nothing() {
    let projects: Vec<Candidate> = vec![];
    let selected = select_projects(&projects, false, true, true, &SelectionChoice::Cancel);
    assert!(selected.is_empty());
}

#[test]
fn clean_all_needs_confirmation() {
    let projects = sample();
    let yes = select_projects(
        &projects,
        false,
        false,
        true,
        &SelectionChoice::CleanAll { confirmed: true },
    );
    assert_eq!(yes.len(), 3);
    let no = select_projects(
        &projects,
        false,
        false,
        true,
        &SelectionChoice::CleanAll { confirmed: false },
    );
    assert!(no.is_empty());
}

#[test]
fn pick_some_returns_picked_subset() {
    let projects = sample();
    let choice = SelectionChoice::PickSome { indices: vec![0, 2], confirmed: true };
    let selected = select_projects(&projects, false, false, true, &choice);
    assert_eq!(selected.len(), 2);
    assert_eq!(selected[0].path, "/r/a");
    assert_eq!(selected[1].path, "/r/c");

    let unconfirmed = SelectionChoice::PickSome { indices: vec![0, 2], confirmed: false };
    assert!(select_projects(&projects, false, false, true, &unconfirmed).is_empty());

    let none_picked = SelectionChoice::PickSome { indices: vec![], confirmed: true };
    assert!(select_projects(&projects, false, false, true, &none_picked).is_empty());
}

#[test]
fn review_abort_discards_progress() {
    let projects = sample();
    let choice = SelectionChoice::ReviewEach {
        actions: vec![ReviewAction::Clean, ReviewAction::Abort],
        confirmed: true,
    };
    assert!(select_projects(&projects, false, false, true, &choice).is_empty());
}

#[test]
fn review_keeps_cleaned_subset() {
    let projects = sample();
    let choice = SelectionChoice::ReviewEach {
        actions: vec![ReviewAction::Clean, ReviewAction::Skip, ReviewAction::Clean],
        confirmed: true,
    };
    let selected = select_projects(&projects, false, false, true, &choice);
    assert_eq!(selected.len(), 2);
    assert_eq!(selected[0].path, "/r/a");
    assert_eq!(selected[1].path, "/r/c");

    let unconfirmed = SelectionChoice::ReviewEach {
        actions: vec![ReviewAction::Clean, ReviewAction::Skip, ReviewAction::Clean],
        confirmed: false,
    };
    assert!(select_projects(&projects, false, false, true, &unconfirmed).is_empty());
}

#[test]
fn cancel_selects_nothing() {
    let projects = sample();
    assert!(select_projects(&projects, false, false, true, &SelectionChoice::Cancel).is_empty());
}

#[test]
fn empty_execution_is_a_noop() {
    // An empty selection: zero successes, zero bytes freed, no work done.
    let outcomes: Vec<CleanupOutcome> = vec![];
    let (count, freed) = aggregate_outcomes(&outcomes);
    assert_eq!(count, 0);
    assert_eq!(freed, 0);
}

#[test]
fn failed_unit_contributes_nothing() {
    // A failure contributes neither to the success count nor to the
    // freed total, and its siblings' results are unaffected.
    let outcomes = vec![
        CleanupOutcome { succeeded: true, size_before: 100, size_after: 30 },
        CleanupOutcome { succeeded: false, size_before: 5000, size_after: 0 },
        CleanupOutcome { succeeded: true, size_before: 40, size_after: 40 },
    ];
    let (count, freed) = aggregate_outcomes(&outcomes);
    assert_eq!(count, 2);
    assert_eq!(freed, 70);
}

#[test]
fn freed_bytes_never_negative() {
    // An external tool may leave the directory larger than before: freed
    // bytes saturate at zero instead of wrapping.
    let grew = CleanupOutcome { succeeded: true, size_before: 10, size_after: 90 };
    assert_eq!(freed_bytes(&grew), 0);
    let shrank = CleanupOutcome { succeeded: true, size_before: 90, size_after: 10 };
    assert_eq!(freed_bytes(&shrank), 80);
}

#[test]
fn limiter_never_exceeds_bound() {
    let mut limiter = ConcurrencyLimiter::new(2);
    assert!(limiter.try_acquire());
    assert!(limiter.try_acquire());
    assert!(!limiter.try_acquire());
    assert!(limiter.active <= limiter.max_concurrent);
    limiter.release();
    assert!(limiter.try_acquire());
    assert_eq!(limiter.active, 2);
    limiter.release();
    limiter.release();
    assert_eq!(limiter.active, 0);
}

#[test]
fn full_pipeline_scenario() {
    // Clean-all over one real candidate with concurrency 2: exactly one
    // success, freeing what the preview promised.
    let projects = vec![candidate("/r/a", "nodejs", 10486025)];
    let choice = SelectionChoice::CleanAll { confirmed: true };
    let selected = select_projects(&projects, false, false, true, &choice);
    assert_eq!(selected.len(), 1);

    let mut limiter = ConcurrencyLimiter::new(2);
    assert!(limiter.try_acquire());
    let outcome = CleanupOutcome {
        succeeded: true,
        size_before: selected[0].size,
        size_after: 25,
    };
    limiter.release();

    let (count, freed) = aggregate_outcomes(&vec![outcome]);
    assert_eq!(count, 1);
    assert_eq!(freed, 10486000);
}
