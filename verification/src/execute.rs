//! Accounting for cleanup execution. Each selected project's clean action
//! runs as an independent unit; what the unit reports — success or
//! failure, size before, size after — is folded here into the success
//! count and the total of bytes freed. A failing unit contributes zero to
//! both. The admission rule that bounds how many units run at once is
//! modelled by `ConcurrencyLimiter`.

use vstd::prelude::*;
use crate::estimate::sat_add;

verus! {

broadcast use vstd::seq::group_seq_axioms, vstd::std_specs::vec::group_vec_axioms;

/// What one cleanup unit reported: whether its clean action succeeded,
/// and the project's estimated size before and after. The size after a
/// successful clean is *not* guaranteed to be smaller — external tools
/// may recreate files — so freed bytes are computed with saturating
/// subtraction, never assumed monotone.
pub struct CleanupOutcome {
    pub succeeded: bool,
    pub size_before: u64,
    pub size_after: u64,
}

/// The bytes one outcome freed: before minus after, floored at zero, for
/// a success; exactly zero for a failure.
pub open spec fn spec_freed(o: CleanupOutcome) -> int {
    if o.succeeded {
        if o.size_before >= o.size_after {
            o.size_before - o.size_after
        } else {
            0
        }
    } else {
        0
    }
}

pub fn freed_bytes(o: &CleanupOutcome) -> (r: u64)
    ensures
        r as int == spec_freed(*o),
{
    if o.succeeded {
        o.size_before.saturating_sub(o.size_after)
    } else {
        0
    }
}

/// How many outcomes report success.
pub open spec fn spec_success_count(s: Seq<CleanupOutcome>) -> int
    decreases s,
{
    if s.len() == 0 {
        0
    } else {
        (if s[0].succeeded {
            1int
        } else {
            0int
        }) + spec_success_count(s.drop_first())
    }
}

/// The exact total of bytes freed across all outcomes.
pub open spec fn spec_total_freed(s: Seq<CleanupOutcome>) -> int
    decreases s,
{
    if s.len() == 0 {
        0
    } else {
        spec_freed(s[0]) + spec_total_freed(s.drop_first())
    }
}

proof fn lemma_counts_take_succ(s: Seq<CleanupOutcome>, i: int)
    requires
        0 <= i < s.len(),
    ensures
        spec_success_count(s.take(i + 1)) == spec_success_count(s.take(i)) + (if s[i].succeeded {
            1int
        } else {
            0int
        }),
        spec_total_freed(s.take(i + 1)) == spec_total_freed(s.take(i)) + spec_freed(s[i]),
    decreases i,
{
    if i == 0 {
        assert(s.take(1).drop_first() =~= s.take(0));
        assert(s.take(1)[0] == s[0]);
    } else {
        let t = s.drop_first();
        assert(s.take(i + 1).drop_first() =~= t.take(i));
        assert(s.take(i).drop_first() =~= t.take(i - 1));
        assert(s.take(i + 1)[0] == s[0]);
        assert(s.take(i)[0] == s[0]);
        lemma_counts_take_succ(t, i - 1);
        assert(t[i - 1] == s[i]);
    }
}

proof fn lemma_counts_bounds(s: Seq<CleanupOutcome>)
    ensures
        0 <= spec_success_count(s) <= s.len(),
        0 <= spec_total_freed(s),
    decreases s,
{
    if s.len() > 0 {
        lemma_counts_bounds(s.drop_first());
    }
}

/// A failing cleanup unit's outcome contributes nothing: appending it
/// changes neither the success count nor the total of bytes freed.
pub proof fn lemma_failed_outcome_contributes_nothing(s: Seq<CleanupOutcome>, o: CleanupOutcome)
    requires
        !o.succeeded,
    ensures
        spec_success_count(s.push(o)) == spec_success_count(s),
        spec_total_freed(s.push(o)) == spec_total_freed(s),
    decreases s,
{
    let p = s.push(o);
    assert(p.len() == s.len() + 1);
    assert(p[0] == if s.len() == 0 { o } else { s[0] });
    assert(spec_success_count(p) == (if p[0].succeeded { 1int } else { 0int })
        + spec_success_count(p.drop_first()));
    assert(spec_total_freed(p) == spec_freed(p[0]) + spec_total_freed(p.drop_first()));
    if s.len() == 0 {
        assert(p.drop_first() =~= Seq::<CleanupOutcome>::empty());
        assert(spec_success_count(p.drop_first()) == 0);
        assert(spec_total_freed(p.drop_first()) == 0);
    } else {
        assert(p.drop_first() =~= s.drop_first().push(o));
        lemma_failed_outcome_contributes_nothing(s.drop_first(), o);
        assert(spec_success_count(s) == (if s[0].succeeded { 1int } else { 0int })
            + spec_success_count(s.drop_first()));
        assert(spec_total_freed(s) == spec_freed(s[0]) + spec_total_freed(s.drop_first()));
    }
}

/// Folds the outcomes of a finished run into (successful cleanups, total
/// bytes freed). An empty run — nothing was selected — yields (0, 0):
/// a no-op is not an error. The freed total saturates rather than wraps.
pub fn aggregate_outcomes(outcomes: &Vec<CleanupOutcome>) -> (r: (u64, u64))
    ensures
        r.0 as int == spec_success_count(outcomes@),
        r.1 as int == sat_add(0, spec_total_freed(outcomes@)),
        outcomes@.len() == 0 ==> r.0 == 0 && r.1 == 0,
{
    let mut count: u64 = 0;
    let mut freed: u64 = 0;
    let mut i: usize = 0;
    while i < outcomes.len()
        invariant
            0 <= i <= outcomes@.len(),
            count as int == spec_success_count(outcomes@.take(i as int)),
            freed as int == sat_add(0, spec_total_freed(outcomes@.take(i as int))),
        decreases outcomes@.len() - i,
    {
        proof {
            lemma_counts_take_succ(outcomes@, i as int);
            lemma_counts_bounds(outcomes@.take(i as int));
            lemma_counts_bounds(outcomes@.take(i + 1 as int));
            assert(outcomes@.take(i + 1 as int).len() <= outcomes@.len());
        }
        if outcomes[i].succeeded {
            count = count + 1;
        }
        freed = freed.saturating_add(freed_bytes(&outcomes[i]));
        i = i + 1;
    }
    proof {
        assert(outcomes@.take(outcomes@.len() as int) =~= outcomes@);
    }
    (count, freed)
}

/// The run-scoped admission rule for cleanup units: a counting permit
/// with capacity `max_concurrent`. A unit acquires a permit before its
/// clean action and releases it afterwards, success or failure alike, so
/// the number of active units never exceeds the bound.
pub struct ConcurrencyLimiter {
    pub active: usize,
    pub max_concurrent: usize,
}

impl ConcurrencyLimiter {
    /// At most `max_concurrent` permits are ever out at once.
    pub open spec fn wf(&self) -> bool {
        self.active <= self.max_concurrent
    }

    pub fn new(max_concurrent: usize) -> (r: ConcurrencyLimiter)
        ensures
            r.wf(),
            r.active == 0,
            r.max_concurrent == max_concurrent,
    {
        ConcurrencyLimiter { active: 0, max_concurrent }
    }

    /// Admits a unit only while a permit is free; never lets the count of
    /// active units pass the bound.
    pub fn try_acquire(&mut self) -> (r: bool)
        requires
            old(self).wf(),
        ensures
            final(self).wf(),
            final(self).max_concurrent == old(self).max_concurrent,
            r == (old(self).active < old(self).max_concurrent),
            r ==> final(self).active == old(self).active + 1,
            !r ==> *final(self) == *old(self),
    {
        if self.active < self.max_concurrent {
            self.active = self.active + 1;
            true
        } else {
            false
        }
    }

    /// Returns a unit's permit when its action has completed, whether it
    /// succeeded or failed.
    pub fn release(&mut self)
        requires
            old(self).wf(),
            old(self).active > 0,
        ensures
            final(self).wf(),
            final(self).max_concurrent == old(self).max_concurrent,
            final(self).active == old(self).active - 1,
    {
        self.active = self.active - 1;
    }
}

} // verus!
