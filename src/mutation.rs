use vstd::prelude::*;
use crate::error::{ErrorKind, SubmitError};
use crate::jobs::{
    is_terminal, lemma_service_step, lemma_single_service, outcome_state, serves_in_order,
    terminal_kept, JobState, JobTable,
};
use crate::queue::{BoundedQueue, Envelope};
use crate::store::{active_in, Content, ContentVersion, Record, RecordStore};

verus! {

/// A change to a document. `id` is always a local surrogate id.
#[derive(Debug)]
pub enum MutationPayload {
    New { content: Content },
    Edit { id: u64, content: Content },
    Delete { id: u64 },
}

/// The remote operation that the worker asks the adapter to perform.
#[derive(Debug)]
pub enum ExternalCall {
    Create { content: Content },
    Update { remote_id: u64, content: Content },
    Remove { remote_id: u64 },
}

/// What the adapter reports back for the call in flight.
#[derive(Clone, Copy, Debug, PartialEq, Eq, Structural)]
pub enum AdapterReply {
    /// The call succeeded; for a creation, with the remote id it allocated.
    Accepted { remote_id: u64 },
    /// The remote call failed (remote error, rate limit, network).
    Failed,
}

/// What the worker does next.
#[derive(Debug)]
pub enum MutationStep {
    /// Nothing to do: the queue is empty or a call is already in flight.
    Idle,
    /// The command was settled without a remote call.
    Completed { job: usize, outcome: Result<u64, ErrorKind> },
    /// Perform this remote call, then hand its reply to `complete`.
    Call { job: usize, call: ExternalCall },
}

/// The local id that an edit or delete refers to.
pub open spec fn target(p: &MutationPayload) -> Option<u64> {
    match p {
        MutationPayload::New { .. } => None,
        MutationPayload::Edit { id, .. } => Some(*id),
        MutationPayload::Delete { id } => Some(*id),
    }
}

/// The payload's required fields are all non-empty.
pub open spec fn well_shaped(p: &MutationPayload) -> bool {
    match p {
        MutationPayload::New { content } => content.spec_is_complete(),
        MutationPayload::Edit { content, .. } => content.spec_is_complete(),
        MutationPayload::Delete { .. } => true,
    }
}

/// The payload may go to the remote service given `recs`: an edit or delete
/// needs an active record.
pub open spec fn admitted(p: &MutationPayload, recs: Seq<Record>) -> bool {
    match target(p) {
        Some(id) => active_in(recs, id),
        None => true,
    }
}

/// The remote call for an admitted payload.
pub open spec fn call_for(p: &MutationPayload, recs: Seq<Record>) -> ExternalCall {
    match p {
        MutationPayload::New { content } => ExternalCall::Create { content: *content },
        MutationPayload::Edit { id, content } => ExternalCall::Update {
            remote_id: recs[*id - 1].remote_id.unwrap(),
            content: *content,
        },
        MutationPayload::Delete { id } => ExternalCall::Remove {
            remote_id: recs[*id - 1].remote_id.unwrap(),
        },
    }
}

/// The single consumer of the mutation queue. It takes one command at a
/// time, checks it against the record store, has the remote call made, and
/// records the outcome, so remote calls never overlap and follow submission
/// order.
pub struct MutationWorker {
    queue: BoundedQueue<Envelope<MutationPayload>>,
    jobs: JobTable,
    store: RecordStore,
    in_flight: Option<Envelope<MutationPayload>>,
    taken: usize,
    calls: Ghost<Seq<usize>>,
}

impl MutationWorker {
    pub closed spec fn queued(&self) -> Seq<Envelope<MutationPayload>> {
        self.queue@
    }

    pub closed spec fn spec_jobs(&self) -> Seq<JobState> {
        self.jobs@
    }

    pub closed spec fn resolutions(&self) -> Seq<usize> {
        self.jobs.resolutions()
    }

    pub closed spec fn records(&self) -> Seq<Record> {
        self.store.records()
    }

    pub closed spec fn versions(&self) -> Seq<ContentVersion> {
        self.store.versions()
    }

    pub closed spec fn in_service(&self) -> Option<Envelope<MutationPayload>> {
        self.in_flight
    }

    /// How many commands have been taken from the queue.
    pub closed spec fn taken_count(&self) -> nat {
        self.taken as nat
    }

    /// The job ids whose remote call was issued, in the order of issue.
    pub closed spec fn calls(&self) -> Seq<usize> {
        self.calls@
    }

    pub closed spec fn spec_capacity(&self) -> nat {
        self.queue.spec_capacity()
    }

    pub closed spec fn spec_closed(&self) -> bool {
        self.queue.spec_closed()
    }

    pub closed spec fn wf(&self) -> bool {
        &&& self.queue.wf()
        &&& self.jobs.wf()
        &&& self.store.wf()
        &&& self.taken + self.queue@.len() == self.jobs@.len()
        &&& forall|i: int| 0 <= i < self.queue@.len() ==> (#[trigger] self.queue@[i]).job == self.taken + i
        &&& serves_in_order(self.jobs@, self.taken as int, self.in_flight is Some)
        &&& self.in_flight matches Some(e) ==> {
            &&& self.taken >= 1
            &&& e.job == self.taken - 1
            &&& admitted(&e.payload, self.store.records())
            &&& self.calls@.len() > 0
            &&& self.calls@.last() == e.job
        }
        &&& forall|i: int, k: int|
            0 <= i < k < self.calls@.len() ==> #[trigger] self.calls@[i] < #[trigger] self.calls@[k]
        &&& forall|i: int| 0 <= i < self.calls@.len() ==> #[trigger] self.calls@[i] < self.taken
        &&& forall|j: int|
            0 <= j < self.taken ==> (self.calls@.contains(j as usize) <==> #[trigger] self.jobs@[j]
                != JobState::Failed(ErrorKind::NotFound))
    }

    /// Why `submit` would refuse `p`, checked in this order; `None` if it is taken.
    pub open spec fn refusal(&self, p: &MutationPayload) -> Option<SubmitError> {
        if !admitted(p, self.records()) {
            Some(SubmitError::Rejected(ErrorKind::NotFound))
        } else if !well_shaped(p) {
            Some(SubmitError::Rejected(ErrorKind::ValidationError))
        } else if self.spec_closed() {
            Some(SubmitError::Rejected(ErrorKind::Unavailable))
        } else if self.queued().len() >= self.spec_capacity() {
            Some(SubmitError::Full)
        } else if self.spec_jobs().len() >= usize::MAX {
            Some(SubmitError::Rejected(ErrorKind::Internal))
        } else {
            None
        }
    }

    /// A worker with an empty store whose queue holds at most `capacity` commands.
    pub fn new(capacity: usize) -> (w: Self)
        ensures
            w.wf(),
            w.queued() == Seq::<Envelope<MutationPayload>>::empty(),
            w.spec_jobs() == Seq::<JobState>::empty(),
            w.records() == Seq::<Record>::empty(),
            w.versions() == Seq::<ContentVersion>::empty(),
            w.in_service() is None,
            w.calls() == Seq::<usize>::empty(),
            w.spec_capacity() == capacity,
            !w.spec_closed(),
    {
        MutationWorker {
            queue: BoundedQueue::new(capacity),
            jobs: JobTable::new(),
            store: RecordStore::new(),
            in_flight: None,
            taken: 0,
            calls: Ghost(Seq::empty()),
        }
    }

    fn is_admitted(&self, p: &MutationPayload) -> (r: bool)
        requires
            self.store.wf(),
        ensures
            r == admitted(p, self.records()),
    {
        match p.target_id() {
            Some(id) => self.store.find_active(id).is_some(),
            None => true,
        }
    }

    fn build_call(&self, p: &MutationPayload) -> (c: ExternalCall)
        requires
            self.store.wf(),
            admitted(p, self.records()),
        ensures
            c == call_for(p, self.records()),
    {
        match p {
            MutationPayload::New { content } => ExternalCall::Create { content: content.duplicate() },
            MutationPayload::Edit { id, content } => {
                let rec = self.store.find_active(*id).unwrap();
                ExternalCall::Update { remote_id: rec.remote_id.unwrap(), content: content.duplicate() }
            },
            MutationPayload::Delete { id } => {
                let rec = self.store.find_active(*id).unwrap();
                ExternalCall::Remove { remote_id: rec.remote_id.unwrap() }
            },
        }
    }

    /// Takes the oldest queued command into service, unless a call is in
    /// flight. An edit or delete whose record is missing or inactive fails
    /// with `NotFound` at once, with no remote call; any other command becomes
    /// the one call in flight.
    pub fn start_next(&mut self) -> (r: MutationStep)
        requires
            old(self).wf(),
        ensures
            final(self).wf(),
            terminal_kept(old(self).spec_jobs(), final(self).spec_jobs()),
            final(self).records() == old(self).records(),
            final(self).versions() == old(self).versions(),
            final(self).spec_capacity() == old(self).spec_capacity(),
            final(self).spec_closed() == old(self).spec_closed(),
            old(self).in_service() is Some || old(self).queued().len() == 0 ==> r is Idle && final(self).queued() == old(self).queued() && final(self).spec_jobs() == old(self).spec_jobs()
                && final(self).in_service() == old(self).in_service() && final(self).calls() == old(self).calls() && final(self).resolutions() == old(self).resolutions()
                && final(self).taken_count() == old(self).taken_count(),
            old(self).in_service() is None && old(self).queued().len() > 0 ==> {
                let e = old(self).queued()[0];
                &&& e.job == old(self).taken_count()
                &&& final(self).queued() == old(self).queued().drop_first()
                &&& final(self).taken_count() == old(self).taken_count() + 1
                &&& !admitted(&e.payload, old(self).records()) ==> {
                    &&& r == (MutationStep::Completed {
                        job: e.job,
                        outcome: Err(ErrorKind::NotFound),
                    })
                    &&& final(self).spec_jobs() == old(self).spec_jobs().update(
                        e.job as int,
                        JobState::Failed(ErrorKind::NotFound),
                    )
                    &&& final(self).resolutions() == old(self).resolutions().push(e.job)
                    &&& final(self).calls() == old(self).calls()
                    &&& final(self).in_service() is None
                }
                &&& admitted(&e.payload, old(self).records()) ==> {
                    &&& r == (MutationStep::Call {
                        job: e.job,
                        call: call_for(&e.payload, old(self).records()),
                    })
                    &&& final(self).spec_jobs() == old(self).spec_jobs().update(
                        e.job as int,
                        JobState::Processing,
                    )
                    &&& final(self).resolutions() == old(self).resolutions()
                    &&& final(self).calls() == old(self).calls().push(e.job)
                    &&& final(self).in_service() == Some(e)
                }
            },
    {
        if self.in_flight.is_some() {
            return MutationStep::Idle;
        }
        let e = match self.queue.pop() {
            Some(e) => e,
            None => {
                return MutationStep::Idle;
            },
        };
        let ghost old_jobs = self.jobs@;
        let n = self.jobs.len();
        assert(e.job == self.taken);
        self.jobs.begin(e.job);
        self.taken = self.taken + 1;
        if !self.is_admitted(&e.payload) {
            self.jobs.resolve(e.job, Err(ErrorKind::NotFound));
            proof {
                lemma_service_step(old_jobs, self.jobs@, e.job as int, self.in_flight is Some);
            }
            return MutationStep::Completed { job: e.job, outcome: Err(ErrorKind::NotFound) };
        }
        let call = self.build_call(&e.payload);
        let job = e.job;
        let ghost old_calls = self.calls@;
        proof {
            self.calls = Ghost(self.calls@.push(job));
        }
        self.in_flight = Some(e);
        proof {
            lemma_service_step(old_jobs, self.jobs@, job as int, self.in_flight is Some);
            assert forall|j: int| 0 <= j < self.taken implies (self.calls@.contains(j as usize)
                <==> #[trigger] self.jobs@[j] != JobState::Failed(ErrorKind::NotFound)) by {
                if j == job {
                    assert(self.calls@[old_calls.len() as int] == job);
                } else {
                    assert(self.jobs@[j] == old(self).jobs@[j]);
                    if old_calls.contains(j as usize) {
                        let i = choose|i: int| 0 <= i < old_calls.len() && old_calls[i] == j as usize;
                        assert(self.calls@[i] == j as usize);
                    }
                    if self.calls@.contains(j as usize) {
                        let i = choose|i: int| 0 <= i < self.calls@.len() && self.calls@[i] == j as usize;
                        assert(i < old_calls.len());
                        assert(old_calls[i] == j as usize);
                    }
                }
            }
        }
        MutationStep::Call { job, call }
    }

    /// Settles the call in flight with the adapter's reply, taken at time
    /// `now`, and returns its job id and outcome; `None` if no call is in
    /// flight. A failed call changes no local state. A successful one is
    /// persisted: a creation adds an active record with the remote id and its
    /// first version, an edit appends a version, a delete marks the record
    /// inactive. The outcome then carries the command's local id.
    pub fn complete(&mut self, reply: AdapterReply, now: u64) -> (r: Option<
        (usize, Result<u64, ErrorKind>),
    >)
        requires
            old(self).wf(),
        ensures
            final(self).wf(),
            terminal_kept(old(self).spec_jobs(), final(self).spec_jobs()),
            final(self).queued() == old(self).queued(),
            final(self).calls() == old(self).calls(),
            final(self).taken_count() == old(self).taken_count(),
            final(self).in_service() is None,
            final(self).spec_capacity() == old(self).spec_capacity(),
            final(self).spec_closed() == old(self).spec_closed(),
            old(self).in_service() is None ==> r is None && final(self).spec_jobs() == old(
                self).spec_jobs() && final(self).resolutions() == old(self).resolutions()
                && final(self).records() == old(self).records() && final(self).versions() == old(
                self).versions(),
            old(self).in_service() matches Some(e) ==> {
                let recs = old(self).records();
                let vers = old(self).versions();
                let n = recs.len();
                &&& r matches Some((job, outcome)) && job == e.job
                    && final(self).spec_jobs() == old(self).spec_jobs().update(
                    job as int,
                    outcome_state(outcome),
                ) && final(self).resolutions() == old(self).resolutions().push(job)
                &&& reply is Failed ==> r == Some((e.job, Err::<u64, ErrorKind>(ErrorKind::ExternalApiError)))
                    && final(self).records() == recs && final(self).versions() == vers
                &&& reply matches AdapterReply::Accepted { remote_id } ==> match e.payload {
                    MutationPayload::New { content } => if n < u64::MAX {
                        let rec = Record {
                            local_id: (n + 1) as u64,
                            remote_id: Some(remote_id),
                            is_active: true,
                        };
                        &&& r == Some((e.job, Ok::<u64, ErrorKind>((n + 1) as u64)))
                        &&& final(self).records() == recs.push(rec)
                        &&& final(self).versions() == vers.push(
                            ContentVersion {
                                local_id: (n + 1) as u64,
                                content,
                                created_by: e.author,
                                created_at: now,
                            },
                        )
                    } else {
                        &&& r == Some((e.job, Err::<u64, ErrorKind>(ErrorKind::Internal)))
                        &&& final(self).records() == recs
                        &&& final(self).versions() == vers
                    },
                    MutationPayload::Edit { id, content } => {
                        &&& r == Some((e.job, Ok::<u64, ErrorKind>(id)))
                        &&& final(self).records() == recs
                        &&& final(self).versions() == vers.push(
                            ContentVersion { local_id: id, content, created_by: e.author, created_at: now },
                        )
                    },
                    MutationPayload::Delete { id } => {
                        &&& r == Some((e.job, Ok::<u64, ErrorKind>(id)))
                        &&& final(self).records() == recs.update(
                            id - 1,
                            Record { is_active: false, ..recs[id - 1] },
                        )
                        &&& final(self).versions() == vers
                    },
                }
            },
    {
        let e = match self.in_flight.take() {
            Some(e) => e,
            None => {
                return None;
            },
        };
        let ghost old_jobs = self.jobs@;
        let job = e.job;
        let outcome: Result<u64, ErrorKind> = match reply {
            AdapterReply::Failed => Err(ErrorKind::ExternalApiError),
            AdapterReply::Accepted { remote_id } => self.persist(e, remote_id, now),
        };
        self.jobs.resolve(job, outcome);
        proof {
            lemma_service_step(old_jobs, self.jobs@, job as int, self.in_flight is Some);
        }
        Some((job, outcome))
    }

    fn persist(&mut self, e: Envelope<MutationPayload>, remote_id: u64, now: u64) -> (r: Result<
        u64,
        ErrorKind,
    >)
        requires
            old(self).store.wf(),
            admitted(&e.payload, old(self).store.records()),
        ensures
            final(self).store.wf(),
            final(self).jobs == old(self).jobs,
            final(self).queue == old(self).queue,
            final(self).in_flight == old(self).in_flight,
            final(self).taken == old(self).taken,
            final(self).calls == old(self).calls,
            ({
                let recs = old(self).records();
                let vers = old(self).versions();
                let n = recs.len();
                match e.payload {
                    MutationPayload::New { content } => if n < u64::MAX {
                        let rec = Record {
                            local_id: (n + 1) as u64,
                            remote_id: Some(remote_id),
                            is_active: true,
                        };
                        &&& r == Ok::<u64, ErrorKind>((n + 1) as u64)
                        &&& final(self).records() == recs.push(rec)
                        &&& final(self).versions() == vers.push(
                            ContentVersion {
                                local_id: (n + 1) as u64,
                                content,
                                created_by: e.author,
                                created_at: now,
                            },
                        )
                    } else {
                        &&& r == Err::<u64, ErrorKind>(ErrorKind::Internal)
                        &&& final(self).records() == recs
                        &&& final(self).versions() == vers
                    },
                    MutationPayload::Edit { id, content } => {
                        &&& r == Ok::<u64, ErrorKind>(id)
                        &&& final(self).records() == recs
                        &&& final(self).versions() == vers.push(
                            ContentVersion { local_id: id, content, created_by: e.author, created_at: now },
                        )
                    },
                    MutationPayload::Delete { id } => {
                        &&& r == Ok::<u64, ErrorKind>(id)
                        &&& final(self).records() == recs.update(
                            id - 1,
                            Record { is_active: false, ..recs[id - 1] },
                        )
                        &&& final(self).versions() == vers
                    },
                }
            }),
    {
        let Envelope { job: _, author, payload } = e;
        match payload {
            MutationPayload::New { content } => {
                let rec = match self.store.create(remote_id) {
                    Ok(rec) => rec,
                    Err(_) => {
                        return Err(ErrorKind::Internal);
                    },
                };
                match self.store.append_content_version(rec.local_id, content, author, now) {
                    Ok(()) => Ok(rec.local_id),
                    Err(_) => Err(ErrorKind::Internal),
                }
            },
            MutationPayload::Edit { id, content } => {
                match self.store.append_content_version(id, content, author, now) {
                    Ok(()) => Ok(id),
                    Err(_) => Err(ErrorKind::Internal),
                }
            },
            MutationPayload::Delete { id } => {
                match self.store.deactivate(id) {
                    Ok(()) => Ok(id),
                    Err(_) => Err(ErrorKind::Internal),
                }
            },
        }
    }

    /// The state of job `job`; reading it changes nothing, so repeated reads agree.
    pub fn status(&self, job: usize) -> (r: Option<JobState>)
        requires
            self.wf(),
        ensures
            job < self.spec_jobs().len() ==> r == Some(self.spec_jobs()[job as int]),
            job >= self.spec_jobs().len() ==> r is None,
    {
        self.jobs.status(job)
    }

    /// The record with local id `local_id`, active or not.
    pub fn record(&self, local_id: u64) -> (r: Option<Record>)
        requires
            self.wf(),
        ensures
            1 <= local_id <= self.records().len() ==> r == Some(self.records()[local_id - 1]),
            !(1 <= local_id <= self.records().len()) ==> r is None,
    {
        self.store.record(local_id)
    }

    pub fn record_count(&self) -> (r: usize)
        requires
            self.wf(),
        ensures
            r == self.records().len(),
    {
        self.store.record_count()
    }

    pub fn version_count(&self) -> (r: usize)
        requires
            self.wf(),
        ensures
            r == self.versions().len(),
    {
        self.store.version_count()
    }

    /// The `i`-th content version, in order of insertion.
    pub fn version(&self, i: usize) -> (r: Option<&ContentVersion>)
        requires
            self.wf(),
        ensures
            i < self.versions().len() ==> r == Some(&self.versions()[i as int]),
            i >= self.versions().len() ==> r is None,
    {
        self.store.version(i)
    }

    pub fn queued_count(&self) -> (r: usize)
        requires
            self.wf(),
        ensures
            r == self.queued().len(),
    {
        self.queue.len()
    }

    /// A remote call is in flight.
    pub fn is_busy(&self) -> (r: bool)
        requires
            self.wf(),
        ensures
            r == self.in_service() is Some,
    {
        self.in_flight.is_some()
    }

    /// Stops taking new commands; those already queued are still served.
    pub fn close(&mut self)
        requires
            old(self).wf(),
        ensures
            final(self).wf(),
            final(self).spec_closed(),
            final(self).queued() == old(self).queued(),
            final(self).spec_jobs() == old(self).spec_jobs(),
            final(self).resolutions() == old(self).resolutions(),
            final(self).records() == old(self).records(),
            final(self).versions() == old(self).versions(),
            final(self).in_service() == old(self).in_service(),
            final(self).calls() == old(self).calls(),
            final(self).spec_capacity() == old(self).spec_capacity(),
    {
        self.queue.close();
    }

    /// Remote calls are issued in submission order: job ids grow along the
    /// log of calls, every call belongs to a command already taken, and the
    /// queue holds the following job ids in order.
    pub proof fn lemma_calls_in_submission_order(&self)
        requires
            self.wf(),
        ensures
            forall|i: int, k: int|
                0 <= i < k < self.calls().len() ==> #[trigger] self.calls()[i] < #[trigger] self.calls()[k],
            forall|i: int| 0 <= i < self.calls().len() ==> #[trigger] self.calls()[i] < self.taken_count(),
            forall|i: int|
                0 <= i < self.queued().len() ==> (#[trigger] self.queued()[i]).job == self.taken_count() + i,
    {
    }

    /// Each command taken from the queue had exactly one remote call, unless
    /// it failed with `NotFound` before any call; together with the order of
    /// the call log, the calls follow submission order one per command.
    pub proof fn lemma_one_call_per_command(&self)
        requires
            self.wf(),
        ensures
            self.calls().no_duplicates(),
            forall|j: int|
                0 <= j < self.taken_count() ==> (self.calls().contains(j as usize) <==> #[trigger] self.spec_jobs()[j]
                    != JobState::Failed(ErrorKind::NotFound)),
    {
        assert forall|a: int, b: int| 0 <= a < self.calls@.len() && 0 <= b < self.calls@.len() && a != b
            implies self.calls@[a] != self.calls@[b] by {
            if a < b {
                assert(self.calls@[a] < self.calls@[b]);
            } else {
                assert(self.calls@[b] < self.calls@[a]);
            }
        }
    }

    /// At most one command is in service at a time, and one is exactly when
    /// a remote call is in flight.
    pub proof fn lemma_one_in_service(&self)
        requires
            self.wf(),
        ensures
            forall|j: int, k: int|
                0 <= j < self.spec_jobs().len() && 0 <= k < self.spec_jobs().len()
                    && #[trigger] self.spec_jobs()[j] == JobState::Processing
                    && #[trigger] self.spec_jobs()[k] == JobState::Processing ==> j == k,
            self.in_service() matches Some(e) ==> e.job < self.spec_jobs().len()
                && self.spec_jobs()[e.job as int] == JobState::Processing,
    {
        lemma_single_service(self.jobs@, self.taken as int, self.in_flight is Some);
    }

    /// Every command taken from the queue, except the one in flight, has been
    /// resolved exactly once, and only taken commands are ever resolved.
    pub proof fn lemma_resolved_once(&self)
        requires
            self.wf(),
        ensures
            self.resolutions().no_duplicates(),
            forall|i: int|
                0 <= i < self.resolutions().len() ==> #[trigger] self.resolutions()[i] < self.taken_count()
                    && is_terminal(self.spec_jobs()[self.resolutions()[i] as int]),
            forall|j: int|
                0 <= j < self.taken_count() && !(self.in_service() is Some && j == self.taken_count() - 1)
                    ==> is_terminal(#[trigger] self.spec_jobs()[j]) && self.resolutions().contains(
                    j as usize,
                ),
    {
        crate::jobs::lemma_resolved_once(&self.jobs, self.taken as int, self.in_flight is Some);
    }

    /// Checks `payload` and queues it under a fresh job id, which is returned.
    /// Job ids are handed out in submission order, starting at 0.
    pub fn submit(&mut self, author: String, payload: MutationPayload) -> (r: Result<
        usize,
        SubmitError,
    >)
        requires
            old(self).wf(),
        ensures
            final(self).wf(),
            terminal_kept(old(self).spec_jobs(), final(self).spec_jobs()),
            final(self).records() == old(self).records(),
            final(self).versions() == old(self).versions(),
            final(self).in_service() == old(self).in_service(),
            final(self).calls() == old(self).calls(),
            final(self).resolutions() == old(self).resolutions(),
            final(self).spec_capacity() == old(self).spec_capacity(),
            final(self).spec_closed() == old(self).spec_closed(),
            old(self).refusal(&payload) matches Some(e) ==> r == Err::<usize, SubmitError>(e)
                && final(self).queued() == old(self).queued() && final(self).spec_jobs() == old(self).spec_jobs(),
            old(self).refusal(&payload) is None ==> r == Ok::<usize, SubmitError>(
                old(self).spec_jobs().len() as usize,
            ) && final(self).queued() == old(self).queued().push(
                Envelope { job: old(self).spec_jobs().len() as usize, author, payload },
            ) && final(self).spec_jobs() == old(self).spec_jobs().push(JobState::Queued),
    {
        if !self.is_admitted(&payload) {
            return Err(SubmitError::Rejected(ErrorKind::NotFound));
        }
        if !payload.is_well_shaped() {
            return Err(SubmitError::Rejected(ErrorKind::ValidationError));
        }
        if self.queue.is_closed() {
            return Err(SubmitError::Rejected(ErrorKind::Unavailable));
        }
        if self.queue.len() >= self.queue.capacity() {
            return Err(SubmitError::Full);
        }
        if self.jobs.len() == usize::MAX {
            return Err(SubmitError::Rejected(ErrorKind::Internal));
        }
        let job = match self.jobs.allocate() {
            Some(j) => j,
            None => {
                return Err(SubmitError::Rejected(ErrorKind::Internal));
            },
        };
        let pushed = self.queue.push(Envelope { job, author, payload });
        assert(pushed is Ok);
        proof {
            assert forall|i: int| 0 <= i < self.queue@.len() implies (#[trigger] self.queue@[i]).job
                == self.taken + i by {
                if i < old(self).queue@.len() {
                    assert(self.queue@[i] == old(self).queue@[i]);
                }
            }
            assert forall|j: int| 0 <= j < self.taken implies (#[trigger] self.jobs@[j]
                == JobState::Processing <==> (self.in_flight is Some && j == self.taken - 1)) by {
                assert(self.jobs@[j] == old(self).jobs@[j]);
            }
            assert forall|j: int|
                0 <= j < self.taken && #[trigger] self.jobs@[j] != JobState::Processing implies is_terminal(
                self.jobs@[j],
            ) by {
                assert(self.jobs@[j] == old(self).jobs@[j]);
            }
        }
        Ok(job)
    }
}

/// A terminal job state, once read, is read again after any run of steps
/// that each keep terminal states.
pub proof fn lemma_terminal_states_stay(a: Seq<JobState>, b: Seq<JobState>, c: Seq<JobState>)
    requires
        terminal_kept(a, b),
        terminal_kept(b, c),
    ensures
        terminal_kept(a, c),
{
    assert forall|j: int| 0 <= j < a.len() && is_terminal(#[trigger] a[j]) implies c[j] == a[j] by {
        assert(b[j] == a[j]);
    }
}

impl MutationPayload {
    pub fn is_well_shaped(&self) -> (r: bool)
        ensures
            r == well_shaped(self),
    {
        match self {
            MutationPayload::New { content } => content.is_complete(),
            MutationPayload::Edit { content, .. } => content.is_complete(),
            MutationPayload::Delete { .. } => true,
        }
    }

    pub fn target_id(&self) -> (r: Option<u64>)
        ensures
            r == target(self),
    {
        match self {
            MutationPayload::New { .. } => None,
            MutationPayload::Edit { id, .. } => Some(*id),
            MutationPayload::Delete { id } => Some(*id),
        }
    }
}

} // verus!
