//! The orchestrator's bookkeeping: the fixed conversion concurrency bound
//! with its counting permit, and the aggregation of per-task outcomes in
//! which one failed task never hides what its siblings completed.
use vstd::prelude::*;

verus! {

/// The fixed number of conversion tasks admitted at once. The bound is a
/// constant of the design, not a configuration value.
pub const CONVERSION_CONCURRENCY_LIMIT: usize = 4;

/// Options of the download command.
pub struct DownloadOptions {
    quiet: bool,
}

impl DownloadOptions {
    /// What the `quiet` flag of the options is.
    pub closed spec fn spec_quiet(self) -> bool {
        self.quiet
    }

    /// The default options: not quiet.
    pub fn new() -> (r: Self)
        ensures
            !r.spec_quiet(),
    {
        DownloadOptions { quiet: false }
    }

    /// Sets the `quiet` flag, builder-style.
    pub fn quiet(self, quiet: bool) -> (r: Self)
        ensures
            r.spec_quiet() == quiet,
    {
        DownloadOptions { quiet }
    }

    /// Whether progress messages are suppressed.
    pub fn is_quiet(&self) -> (r: bool)
        ensures
            r == self.spec_quiet(),
    {
        self.quiet
    }
}

impl Default for DownloadOptions {
    /// The default options: not quiet.
    fn default() -> (r: Self)
        ensures
            !r.spec_quiet(),
    {
        DownloadOptions { quiet: false }
    }
}

/// How many of the per-task results are failures.
pub open spec fn spec_failure_count(results: Seq<bool>) -> int
    decreases results.len(),
{
    if results.len() == 0 {
        0
    } else {
        spec_failure_count(results.subrange(0, results.len() - 1)) + if results[results.len()
            - 1] {
            0int
        } else {
            1int
        }
    }
}

/// The aggregate of one phase's per-task results. Every scheduled task is
/// counted — a failed task never subtracts a sibling's completion.
pub struct PipelineOutcome {
    pub total: usize,
    pub failures: usize,
}

impl PipelineOutcome {
    /// Whether the whole phase succeeded: it did exactly when no task
    /// failed.
    pub fn is_success(&self) -> (r: bool)
        ensures
            r == (self.failures == 0),
    {
        self.failures == 0
    }
}

/// Folds one phase's per-task results, true for a completed task and
/// false for a failed one, into the phase's aggregate. Every result is
/// consumed: the fold never stops at the first failure.
pub fn aggregate_results(results: &Vec<bool>) -> (r: PipelineOutcome)
    ensures
        r.total == results@.len(),
        r.failures == spec_failure_count(results@),
{
    let mut failures: usize = 0;
    let mut i: usize = 0;
    proof {
        assert(results@.subrange(0, 0) =~= Seq::<bool>::empty());
    }
    while i < results.len()
        invariant
            i <= results@.len(),
            failures == spec_failure_count(results@.subrange(0, i as int)),
            failures <= i,
        decreases results@.len() - i,
    {
        if !results[i] {
            failures = failures + 1;
        }
        proof {
            assert(results@.subrange(0, i + 1).subrange(0, i as int) =~= results@.subrange(
                0,
                i as int,
            ));
            assert(results@.subrange(0, i + 1)[i as int] == results@[i as int]);
        }
        i = i + 1;
    }
    proof {
        assert(results@.subrange(0, results@.len() as int) =~= results@);
    }
    PipelineOutcome { total: results.len(), failures }
}

/// Law: the aggregate is a failure exactly when at least one task failed —
/// and however many failed, every completed sibling still counts, because
/// the failure count never exceeds the number of failed entries.
pub proof fn lemma_aggregate_failure_iff(results: Seq<bool>)
    ensures
        spec_failure_count(results) == 0 <==> (forall|i: int|
            0 <= i < results.len() ==> results[i]),
        spec_failure_count(results) >= 0,
        spec_failure_count(results) <= results.len(),
    decreases results.len(),
{
    if results.len() == 0 {
    } else {
        let front = results.subrange(0, results.len() - 1);
        lemma_aggregate_failure_iff(front);
        assert(forall|i: int| 0 <= i < front.len() ==> front[i] == results[i]);
        if spec_failure_count(results) == 0 {
            assert forall|i: int| 0 <= i < results.len() implies results[i] by {
                if i < results.len() - 1 {
                    assert(front[i]);
                }
            }
        }
    }
}

/// One step of the conversion permit: a task asks to start, or a running
/// task finishes and gives its permit back.
#[derive(Clone, Copy, Debug, PartialEq, Eq, Structural)]
pub enum PermitEvent {
    Acquire,
    Release,
}

/// How the number of running tasks evolves: an acquire is granted only
/// below the bound, and a release — which happens on completion and on
/// failure alike — frees one permit.
pub open spec fn spec_permit_step(limit: nat, in_flight: nat, event: PermitEvent) -> nat {
    match event {
        PermitEvent::Acquire => if in_flight < limit {
            in_flight + 1
        } else {
            in_flight
        },
        PermitEvent::Release => if in_flight > 0 {
            (in_flight - 1) as nat
        } else {
            in_flight
        },
    }
}

/// The number of running tasks after a whole history of permit events,
/// starting from none.
pub open spec fn spec_permit_run(limit: nat, events: Seq<PermitEvent>) -> nat
    decreases events.len(),
{
    if events.len() == 0 {
        0
    } else {
        spec_permit_step(
            limit,
            spec_permit_run(limit, events.subrange(0, events.len() - 1)),
            events[events.len() - 1],
        )
    }
}

/// Law: however many tasks are queued and in whatever order they start
/// and finish, the number running at once never exceeds the bound.
pub proof fn lemma_concurrency_never_exceeds_limit(limit: nat, events: Seq<PermitEvent>)
    ensures
        spec_permit_run(limit, events) <= limit,
    decreases events.len(),
{
    if events.len() > 0 {
        lemma_concurrency_never_exceeds_limit(limit, events.subrange(0, events.len() - 1));
    }
}

/// The counting permit the conversion phase runs under: at most `limit`
/// tasks hold a permit at any instant, and the highest count ever held is
/// kept for observation.
pub struct ConversionLimiter {
    pub limit: usize,
    pub in_flight: usize,
    pub peak: usize,
}

impl ConversionLimiter {
    /// The limiter's invariant: what runs never exceeds the bound, and
    /// neither did any earlier instant.
    pub open spec fn wf(self) -> bool {
        self.in_flight <= self.peak <= self.limit
    }

    /// A fresh permit counter for the given bound; nothing runs yet.
    pub fn new(limit: usize) -> (r: Self)
        requires
            limit >= 1,
        ensures
            r.limit == limit,
            r.in_flight == 0,
            r.peak == 0,
            r.wf(),
    {
        ConversionLimiter { limit, in_flight: 0, peak: 0 }
    }

    /// One task asks to start: granted exactly when a permit is free, as
    /// `spec_permit_step` says; refused, the state is unchanged.
    pub fn try_acquire(&mut self) -> (granted: bool)
        requires
            old(self).wf(),
        ensures
            final(self).wf(),
            final(self).limit == old(self).limit,
            granted == (old(self).in_flight < old(self).limit),
            final(self).in_flight == spec_permit_step(
                old(self).limit as nat,
                old(self).in_flight as nat,
                PermitEvent::Acquire,
            ),
            final(self).peak == (if final(self).in_flight > old(self).peak {
                final(self).in_flight
            } else {
                old(self).peak
            }),
    {
        if self.in_flight < self.limit {
            self.in_flight = self.in_flight + 1;
            if self.in_flight > self.peak {
                self.peak = self.in_flight;
            }
            true
        } else {
            false
        }
    }

    /// One running task finishes — completed or failed alike — and gives
    /// its permit back.
    pub fn release(&mut self)
        requires
            old(self).wf(),
            old(self).in_flight >= 1,
        ensures
            final(self).wf(),
            final(self).limit == old(self).limit,
            final(self).peak == old(self).peak,
            final(self).in_flight == spec_permit_step(
                old(self).limit as nat,
                old(self).in_flight as nat,
                PermitEvent::Release,
            ),
    {
        self.in_flight = self.in_flight - 1;
    }
}

} // verus!
