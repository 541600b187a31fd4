//! Running the merges one after the other, up to the first that fails.

use crate::concat::mkvmerge::MergeJob;
use vstd::prelude::*;

verus! {

/// What came of a run of mkvmerge.
#[derive(Debug)]
pub enum MergeOutcome {
    Succeeded,
    /// It ended with a failure, and had written this.
    Failed { stderr: String },
    /// It could not be started, or its options could not be written.
    NotStarted { message: String },
}

/// Runs of mkvmerge, some of which are done.
#[derive(Debug)]
pub struct MergeRun {
    pub jobs: Vec<MergeJob>,
    /// How many have succeeded.
    pub done: usize,
    /// What is said of the one that did not.
    pub error: Option<String>,
}

impl MergeRun {
    /// Whether no more runs are done than there are.
    pub open spec fn wf(self) -> bool {
        self.done <= self.jobs@.len()
    }

    /// Whether another run is due.
    pub open spec fn is_due(self) -> bool {
        self.error is None && self.done < self.jobs@.len()
    }

    /// What is said where the run that is due ends with `outcome`.
    pub open spec fn complaint(self, outcome: MergeOutcome) -> Option<Seq<char>> {
        match outcome {
            MergeOutcome::Succeeded => None,
            MergeOutcome::Failed { stderr } => Some(
                crate::concat::mkvmerge::merge_failure(self.jobs@[self.done as int]@, stderr@),
            ),
            MergeOutcome::NotStarted { message } => Some(message@),
        }
    }

    /// Whether `later` is what follows where the run that is due ends with `outcome`.
    pub open spec fn leads_to(self, outcome: MergeOutcome, later: MergeRun) -> bool {
        &&& later.jobs == self.jobs
        &&& match self.complaint(outcome) {
            None => later.done == self.done + 1 && later.error is None,
            Some(text) => later.done == self.done && later.error is Some && later.error->0@ == text,
        }
    }

    /// Runs that are still to be done.
    pub fn new(jobs: Vec<MergeJob>) -> (run: MergeRun)
        ensures
            run.wf(),
            run.jobs == jobs,
            run.done == 0,
            run.error is None,
    {
        MergeRun { jobs, done: 0, error: None }
    }

    /// The run that is due: `None` where all have succeeded, or one has not.
    pub fn due(&self) -> (job: Option<&MergeJob>)
        requires
            self.wf(),
        ensures
            match job {
                Some(job) => self.is_due() && *job == self.jobs@[self.done as int],
                None => !self.is_due(),
            },
    {
        if self.error.is_none() && self.done < self.jobs.len() {
            Some(&self.jobs[self.done])
        } else {
            None
        }
    }

    /// Takes up what came of the run that was due.
    pub fn step(&mut self, outcome: MergeOutcome)
        requires
            old(self).wf(),
            old(self).is_due(),
        ensures
            final(self).wf(),
            old(self).leads_to(outcome, *final(self)),
    {
        match outcome {
            MergeOutcome::Succeeded => {
                assert(self.done < self.jobs.len());
                self.done = self.done + 1;
            },
            MergeOutcome::Failed { stderr } => {
                let error: String = self.jobs[self.done].failure(stderr.as_str());
                self.error = Some(error);
            },
            MergeOutcome::NotStarted { message } => {
                self.error = Some(message);
            },
        }
    }
}

/// Whether `runs` are the states that follow each other where the runs that are due end with
/// `outcomes`, one by one.
pub open spec fn is_history(runs: Seq<MergeRun>, outcomes: Seq<MergeOutcome>) -> bool {
    &&& runs.len() == outcomes.len() + 1
    &&& runs[0].done == 0 && runs[0].error is None
    &&& forall|i: int|
        0 <= i < outcomes.len() ==> runs[i].is_due() && runs[i].leads_to(
            #[trigger] outcomes[i],
            runs[i + 1],
        )
}

/// The runs are made in order: as long as all succeed, each outcome is that of the next run.
proof fn lemma_runs_in_order(runs: Seq<MergeRun>, outcomes: Seq<MergeOutcome>, at: int)
    requires
        is_history(runs, outcomes),
        0 <= at <= outcomes.len(),
    ensures
        runs[at].jobs == runs[0].jobs,
        runs[at].error is None ==> runs[at].done == at,
        runs[at].error is Some ==> at > 0 && at == outcomes.len() && runs[at].done == at - 1 && !(
        outcomes[at - 1] is Succeeded),
    decreases at,
{
    if at > 0 {
        lemma_runs_in_order(runs, outcomes, at - 1);
        assert(runs[at - 1].leads_to(outcomes[at - 1], runs[at]));
        if runs[at].error is Some && at < outcomes.len() {
            assert(runs[at].leads_to(outcomes[at], runs[at + 1]));
        }
    }
}

/// No run of mkvmerge follows one that failed or could not be started: it is the last, no further
/// one is due, and what is said is said of it. So where a group fails, the whole is not merged.
pub proof fn no_run_follows_a_failure(
    runs: Seq<MergeRun>,
    outcomes: Seq<MergeOutcome>,
    failed: int,
)
    requires
        is_history(runs, outcomes),
        0 <= failed < outcomes.len(),
        !(outcomes[failed] is Succeeded),
    ensures
        failed == outcomes.len() - 1,
        !runs.last().is_due(),
        runs.last().error is Some,
        outcomes[failed] matches MergeOutcome::Failed { stderr } ==> runs.last().error->0@
            == crate::concat::mkvmerge::merge_failure(runs[0].jobs@[failed]@, stderr@),
        outcomes[failed] matches MergeOutcome::NotStarted { message } ==> runs.last().error->0@
            == message@,
{
    lemma_runs_in_order(runs, outcomes, failed);
    lemma_runs_in_order(runs, outcomes, failed + 1);
    assert(runs[failed].leads_to(outcomes[failed], runs[failed + 1]));
}

/// Where nothing more is due and nothing failed, every run was made, once and in order, and
/// succeeded.
pub proof fn merged_means_every_run_succeeded(runs: Seq<MergeRun>, outcomes: Seq<MergeOutcome>)
    requires
        is_history(runs, outcomes),
        runs.last().wf(),
        !runs.last().is_due(),
        runs.last().error is None,
    ensures
        outcomes.len() == runs[0].jobs@.len(),
        forall|i: int|
            0 <= i < outcomes.len() ==> (#[trigger] outcomes[i]) is Succeeded && runs[i].done == i,
{
    lemma_runs_in_order(runs, outcomes, outcomes.len() as int);
    assert forall|i: int| 0 <= i < outcomes.len() implies (
    #[trigger] outcomes[i]) is Succeeded && runs[i].done == i by {
        lemma_runs_in_order(runs, outcomes, i);
        if !(outcomes[i] is Succeeded) {
            no_run_follows_a_failure(runs, outcomes, i);
        }
    }
}

} // verus!
