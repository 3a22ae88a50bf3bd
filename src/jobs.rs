use vstd::prelude::*;
use crate::error::ErrorKind;

verus! {

/// Where a submitted command stands. `Succeeded` and `Failed` are terminal.
#[derive(Clone, Copy, Debug, PartialEq, Eq, Structural)]
pub enum JobState {
    Queued,
    Processing,
    /// Completed; carries the identity the command produced.
    Succeeded(u64),
    /// Completed with an error.
    Failed(ErrorKind),
}

pub open spec fn is_terminal(s: JobState) -> bool {
    s is Succeeded || s is Failed
}

/// The terminal state that an outcome resolves to.
pub open spec fn outcome_state(o: Result<u64, ErrorKind>) -> JobState {
    match o {
        Ok(v) => JobState::Succeeded(v),
        Err(e) => JobState::Failed(e),
    }
}

/// `b` extends `a`, and every job that was terminal in `a` has the same state in `b`.
pub open spec fn terminal_kept(a: Seq<JobState>, b: Seq<JobState>) -> bool {
    &&& a.len() <= b.len()
    &&& forall|j: int| 0 <= j < a.len() && is_terminal(#[trigger] a[j]) ==> b[j] == a[j]
}

/// The shape of a job table served in order by one worker: the first
/// `taken` jobs have left the queue, the last of them is in service exactly
/// when `busy`, the others are terminal; all later jobs are still queued.
pub open spec fn serves_in_order(jobs: Seq<JobState>, taken: int, busy: bool) -> bool {
    &&& forall|j: int| taken <= j < jobs.len() ==> #[trigger] jobs[j] == JobState::Queued
    &&& forall|j: int|
        0 <= j < taken ==> (#[trigger] jobs[j] == JobState::Processing <==> (busy && j == taken - 1))
    &&& forall|j: int| 0 <= j < taken && #[trigger] jobs[j] != JobState::Processing ==> is_terminal(jobs[j])
}

/// Taking job `job` into service, or settling it, keeps the table served in
/// order, with `job + 1` jobs taken.
pub proof fn lemma_service_step(old_jobs: Seq<JobState>, jobs: Seq<JobState>, job: int, busy: bool)
    requires
        0 <= job < old_jobs.len(),
        jobs.len() == old_jobs.len(),
        forall|j: int| 0 <= j < old_jobs.len() && j != job ==> jobs[j] == old_jobs[j],
        jobs[job] == JobState::Processing <==> busy,
        jobs[job] != JobState::Processing ==> is_terminal(jobs[job]),
        forall|j: int|
            0 <= j < job ==> (#[trigger] old_jobs[j] != JobState::Processing && is_terminal(old_jobs[j])),
        forall|j: int| job < j < old_jobs.len() ==> #[trigger] old_jobs[j] == JobState::Queued,
    ensures
        serves_in_order(jobs, job + 1, busy),
{
    assert forall|j: int| job + 1 <= j < jobs.len() implies #[trigger] jobs[j] == JobState::Queued by {
        assert(jobs[j] == old_jobs[j]);
    }
    assert forall|j: int| 0 <= j < job + 1 implies (#[trigger] jobs[j] == JobState::Processing <==> (
    busy && j == job)) by {
        if j != job {
            assert(jobs[j] == old_jobs[j]);
        }
    }
    assert forall|j: int| 0 <= j < job + 1 && #[trigger] jobs[j] != JobState::Processing implies is_terminal(
        jobs[j],
    ) by {
        if j != job {
            assert(jobs[j] == old_jobs[j]);
        }
    }
}

/// In a table served in order, at most one job is in service.
pub proof fn lemma_single_service(jobs: Seq<JobState>, taken: int, busy: bool)
    requires
        serves_in_order(jobs, taken, busy),
    ensures
        forall|j: int, k: int|
            0 <= j < jobs.len() && 0 <= k < jobs.len() && #[trigger] jobs[j] == JobState::Processing
                && #[trigger] jobs[k] == JobState::Processing ==> j == k,
{
    assert forall|j: int, k: int|
        0 <= j < jobs.len() && 0 <= k < jobs.len() && #[trigger] jobs[j] == JobState::Processing
            && #[trigger] jobs[k] == JobState::Processing implies j == k by {
        if j >= taken {
            assert(jobs[j] == JobState::Queued);
        }
        if k >= taken {
            assert(jobs[k] == JobState::Queued);
        }
    }
}

/// In a table served in order, every job taken and not in service has been
/// resolved exactly once, and only taken jobs are ever resolved.
pub proof fn lemma_resolved_once(t: &JobTable, taken: int, busy: bool)
    requires
        t.wf(),
        0 <= taken <= t@.len(),
        serves_in_order(t@, taken, busy),
    ensures
        t.resolutions().no_duplicates(),
        forall|i: int|
            0 <= i < t.resolutions().len() ==> #[trigger] t.resolutions()[i] < taken && is_terminal(
                t@[t.resolutions()[i] as int],
            ),
        forall|j: int|
            0 <= j < taken && !(busy && j == taken - 1) ==> is_terminal(#[trigger] t@[j])
                && t.resolutions().contains(j as usize),
{
    assert forall|i: int| 0 <= i < t.resolutions().len() implies #[trigger] t.resolutions()[i] < taken
        && is_terminal(t@[t.resolutions()[i] as int]) by {
        let j = t.resolutions()[i] as int;
        if j >= taken {
            assert(t@[j] == JobState::Queued);
        }
    }
    assert forall|j: int| 0 <= j < taken && !(busy && j == taken - 1) implies is_terminal(
        #[trigger] t@[j],
    ) && t.resolutions().contains(j as usize) by {
        assert(t@[j] != JobState::Processing);
    }
}

/// Job states indexed by job id, with the order in which jobs were resolved.
/// Each job id is handed out once, and each job is resolved at most once.
pub struct JobTable {
    states: Vec<JobState>,
    resolved: Ghost<Seq<usize>>,
}

impl View for JobTable {
    type V = Seq<JobState>;

    closed spec fn view(&self) -> Seq<JobState> {
        self.states@
    }
}

impl JobTable {
    /// The ids of resolved jobs, in the order in which they were resolved.
    pub closed spec fn resolutions(&self) -> Seq<usize> {
        self.resolved@
    }

    pub open spec fn wf(&self) -> bool {
        &&& self.resolutions().no_duplicates()
        &&& forall|i: int|
            0 <= i < self.resolutions().len() ==> #[trigger] self.resolutions()[i] < self@.len()
                && is_terminal(self@[self.resolutions()[i] as int])
        &&& forall|j: int|
            0 <= j < self@.len() && is_terminal(#[trigger] self@[j]) ==> self.resolutions().contains(
                j as usize,
            )
    }

    pub fn new() -> (t: Self)
        ensures
            t.wf(),
            t@ == Seq::<JobState>::empty(),
            t.resolutions() == Seq::<usize>::empty(),
    {
        JobTable { states: Vec::new(), resolved: Ghost(Seq::empty()) }
    }

    pub fn len(&self) -> (r: usize)
        ensures
            r == self@.len(),
    {
        self.states.len()
    }

    /// Hands out the next job id, in state `Queued`; `None` when ids are exhausted.
    pub fn allocate(&mut self) -> (r: Option<usize>)
        requires
            old(self).wf(),
        ensures
            final(self).wf(),
            final(self).resolutions() == old(self).resolutions(),
            r is None <==> old(self)@.len() == usize::MAX,
            r is None ==> final(self)@ == old(self)@,
            r matches Some(j) ==> j == old(self)@.len() && final(self)@ == old(self)@.push(
                JobState::Queued,
            ),
    {
        if self.states.len() == usize::MAX {
            return None;
        }
        let j = self.states.len();
        self.states.push(JobState::Queued);
        Some(j)
    }

    /// Moves a queued job into service.
    pub fn begin(&mut self, j: usize)
        requires
            old(self).wf(),
            j < old(self)@.len(),
            old(self)@[j as int] == JobState::Queued,
        ensures
            final(self).wf(),
            final(self).resolutions() == old(self).resolutions(),
            final(self)@ == old(self)@.update(j as int, JobState::Processing),
    {
        self.states.set(j, JobState::Processing);
    }

    /// Resolves a job in service with its outcome. A job can be resolved only
    /// while it is in service, so never twice.
    pub fn resolve(&mut self, j: usize, outcome: Result<u64, ErrorKind>)
        requires
            old(self).wf(),
            j < old(self)@.len(),
            old(self)@[j as int] == JobState::Processing,
        ensures
            final(self).wf(),
            final(self)@ == old(self)@.update(j as int, outcome_state(outcome)),
            final(self).resolutions() == old(self).resolutions().push(j),
    {
        let s = match outcome {
            Ok(v) => JobState::Succeeded(v),
            Err(e) => JobState::Failed(e),
        };
        self.states.set(j, s);
        let ghost old_r = self.resolved@;
        proof {
            assert(!old_r.contains(j)) by {
                if old_r.contains(j) {
                    let i = choose|i: int| 0 <= i < old_r.len() && old_r[i] == j;
                    assert(old_r[i] < old(self)@.len());
                }
            }
            self.resolved = Ghost(old_r.push(j));
            assert forall|i: int|
                0 <= i < self.resolved@.len() implies #[trigger] self.resolved@[i] < self@.len()
                && is_terminal(self@[self.resolved@[i] as int]) by {
                if i < old_r.len() {
                    assert(old_r[i] < old(self)@.len());
                }
            }
            assert forall|k: int|
                0 <= k < self@.len() && is_terminal(#[trigger] self@[k]) implies self.resolved@.contains(
                k as usize,
            ) by {
                if k == j {
                    assert(self.resolved@[old_r.len() as int] == j);
                } else {
                    assert(old(self)@[k] == self@[k]);
                    let i = choose|i: int| 0 <= i < old_r.len() && old_r[i] == k as usize;
                    assert(self.resolved@[i] == k as usize);
                }
            }
        }
    }

    /// The state of job `j`; reading it changes nothing.
    pub fn status(&self, j: usize) -> (r: Option<JobState>)
        ensures
            j < self@.len() ==> r == Some(self@[j as int]),
            j >= self@.len() ==> r is None,
    {
        if j < self.states.len() {
            Some(self.states[j])
        } else {
            None
        }
    }
}

} // verus!
