use vstd::prelude::*;
use crate::error::{ErrorKind, SubmitError};
use crate::jobs::{
    is_terminal, lemma_service_step, lemma_single_service, outcome_state, serves_in_order,
    terminal_kept, JobState, JobTable,
};
use crate::queue::{BoundedQueue, Envelope};
use crate::rate::{has_category, Bucket, RateGate};

verus! {

/// A message operation against the remote service.
#[derive(Debug)]
pub enum SendPayload {
    /// Send `template` to `recipient`; gated by the bucket of `category`.
    Queue { recipient: String, template: String, category: u64 },
    /// Withdraw `template` for `recipient`; not gated.
    Delete { recipient: String, template: String },
    /// Read the recipients' queued sends; not gated.
    List,
}

/// The payload's fields are non-empty and a `Queue` names a configured category.
pub open spec fn send_well_formed(p: &SendPayload, bs: Seq<Bucket>) -> bool {
    match p {
        SendPayload::Queue { recipient, template, category } => recipient@.len() > 0
            && template@.len() > 0 && has_category(bs, *category),
        SendPayload::Delete { recipient, template } => recipient@.len() > 0 && template@.len() > 0,
        SendPayload::List => true,
    }
}

/// The gated category of a payload, if any.
pub open spec fn gated_category(p: &SendPayload) -> Option<u64> {
    match p {
        SendPayload::Queue { category, .. } => Some(*category),
        _ => None,
    }
}

/// The index of the bucket of `category` in `bs`.
pub open spec fn bucket_index(bs: Seq<Bucket>, category: u64) -> int {
    choose|i: int| 0 <= i < bs.len() && (#[trigger] bs[i]).category == category
}

impl SendPayload {
    /// A field-by-field copy.
    pub fn duplicate(&self) -> (r: SendPayload)
        ensures
            r == *self,
    {
        match self {
            SendPayload::Queue { recipient, template, category } => SendPayload::Queue {
                recipient: recipient.clone(),
                template: template.clone(),
                category: *category,
            },
            SendPayload::Delete { recipient, template } => SendPayload::Delete {
                recipient: recipient.clone(),
                template: template.clone(),
            },
            SendPayload::List => SendPayload::List,
        }
    }

    pub fn gated(&self) -> (r: Option<u64>)
        ensures
            r == gated_category(self),
    {
        match self {
            SendPayload::Queue { category, .. } => Some(*category),
            _ => None,
        }
    }
}

/// The templates of the `Queue` envelopes of `q` addressed to `recipient`,
/// in queue order.
pub open spec fn queued_templates(q: Seq<Envelope<SendPayload>>, recipient: Seq<char>) -> Seq<Seq<char>>
    decreases q.len(),
{
    if q.len() == 0 {
        Seq::empty()
    } else {
        let rest = queued_templates(q.drop_last(), recipient);
        match q.last().payload {
            SendPayload::Queue { recipient: r, template, .. } => if r@ == recipient {
                rest.push(template@)
            } else {
                rest
            },
            _ => rest,
        }
    }
}

/// The recipients of the `Queue` envelopes of `q`, each once, in the order
/// of their first envelope.
pub open spec fn queued_recipients(q: Seq<Envelope<SendPayload>>) -> Seq<Seq<char>>
    decreases q.len(),
{
    if q.len() == 0 {
        Seq::empty()
    } else {
        let rest = queued_recipients(q.drop_last());
        match q.last().payload {
            SendPayload::Queue { recipient: r, .. } => if rest.contains(r@) {
                rest
            } else {
                rest.push(r@)
            },
            _ => rest,
        }
    }
}

/// `l` maps each recipient with queued sends in `q` to its templates, in
/// queue order; recipients come in the order of their first queued send.
pub open spec fn is_listing(l: Seq<(String, Vec<String>)>, q: Seq<Envelope<SendPayload>>) -> bool {
    let rs = queued_recipients(q);
    &&& l.len() == rs.len()
    &&& forall|i: int|
        0 <= i < l.len() ==> (#[trigger] l[i]).0@ == rs[i] && l[i].1@.map_values(|s: String| s@)
            == queued_templates(q, rs[i])
}

/// The templates queued in `q` for `recipient`, in queue order.
pub fn templates_for(q: &BoundedQueue<Envelope<SendPayload>>, recipient: &String) -> (r: Vec<String>)
    ensures
        r@.map_values(|s: String| s@) == queued_templates(q@, recipient@),
{
    let mut r: Vec<String> = Vec::new();
    let mut i: usize = 0;
    while i < q.len()
        invariant
            i <= q@.len(),
            r@.map_values(|s: String| s@) == queued_templates(q@.take(i as int), recipient@),
        decreases q@.len() - i,
    {
        let e = q.get(i);
        proof {
            assert(q@.take(i + 1).drop_last() =~= q@.take(i as int));
            assert(q@.take(i + 1).last() == q@[i as int]);
        }
        match &e.payload {
            SendPayload::Queue { recipient: to, template, .. } => {
                if *to == *recipient {
                    let ghost before = r@;
                    r.push(template.clone());
                    proof {
                        assert(r@.map_values(|s: String| s@) =~= before.map_values(|s: String| s@).push(
                            template@,
                        ));
                    }
                }
            },
            _ => {},
        }
        i = i + 1;
    }
    proof {
        assert(q@.take(q@.len() as int) =~= q@);
    }
    r
}

fn holds_name(names: &Vec<String>, name: &String) -> (r: bool)
    ensures
        r == names@.map_values(|s: String| s@).contains(name@),
{
    let ghost m = names@.map_values(|s: String| s@);
    let mut k: usize = 0;
    while k < names.len()
        invariant
            k <= names@.len(),
            m == names@.map_values(|s: String| s@),
            forall|j: int| 0 <= j < k ==> m[j] != name@,
        decreases names@.len() - k,
    {
        if names[k] == *name {
            assert(m[k as int] == name@);
            return true;
        }
        k = k + 1;
    }
    false
}

/// The recipients with queued sends in `q`, each once, in the order of
/// their first queued send.
pub fn recipients_of(q: &BoundedQueue<Envelope<SendPayload>>) -> (r: Vec<String>)
    ensures
        r@.map_values(|s: String| s@) == queued_recipients(q@),
{
    let mut r: Vec<String> = Vec::new();
    let mut i: usize = 0;
    while i < q.len()
        invariant
            i <= q@.len(),
            r@.map_values(|s: String| s@) == queued_recipients(q@.take(i as int)),
        decreases q@.len() - i,
    {
        let e = q.get(i);
        proof {
            assert(q@.take(i + 1).drop_last() =~= q@.take(i as int));
            assert(q@.take(i + 1).last() == q@[i as int]);
        }
        match &e.payload {
            SendPayload::Queue { recipient: to, .. } => {
                if !holds_name(&r, to) {
                    let ghost before = r@;
                    r.push(to.clone());
                    proof {
                        assert(r@.map_values(|s: String| s@) =~= before.map_values(|s: String| s@).push(
                            to@,
                        ));
                    }
                }
            },
            _ => {},
        }
        i = i + 1;
    }
    proof {
        assert(q@.take(q@.len() as int) =~= q@);
    }
    r
}

/// Each recipient with queued sends in `q`, with its templates in queue order.
pub fn listing_of(q: &BoundedQueue<Envelope<SendPayload>>) -> (l: Vec<(String, Vec<String>)>)
    ensures
        is_listing(l@, q@),
{
    let names = recipients_of(q);
    let ghost rs = queued_recipients(q@);
    let mut l: Vec<(String, Vec<String>)> = Vec::new();
    let mut k: usize = 0;
    while k < names.len()
        invariant
            k <= names@.len(),
            names@.map_values(|s: String| s@) == rs,
            l@.len() == k,
            forall|i: int|
                0 <= i < k ==> (#[trigger] l@[i]).0@ == rs[i] && l@[i].1@.map_values(|s: String| s@)
                    == queued_templates(q@, rs[i]),
        decreases names@.len() - k,
    {
        let name = &names[k];
        assert(name@ == rs[k as int]);
        let templates = templates_for(q, name);
        l.push((name.clone(), templates));
        k = k + 1;
    }
    l
}

/// What the send worker does next.
#[derive(Debug)]
pub enum SendStep {
    /// Nothing to do: the queue is empty or a call is already in flight.
    Idle,
    /// The oldest command is gated until this time.
    Wait { until: u64 },
    /// Perform this remote operation, then report to `complete`.
    Call { job: usize, call: SendPayload },
    /// A `List` was answered with the queued sends behind it; the job has
    /// succeeded and no remote call is needed.
    Listed { job: usize, listing: Vec<(String, Vec<String>)> },
}

/// The single consumer of the send queue. Commands are served one at a time
/// in submission order; a `Queue` send waits until its bucket's cooldown has
/// passed and starts a new cooldown, whatever its result.
pub struct SendWorker {
    queue: BoundedQueue<Envelope<SendPayload>>,
    jobs: JobTable,
    gate: RateGate,
    in_flight: Option<Envelope<SendPayload>>,
    taken: usize,
}

impl SendWorker {
    pub closed spec fn queued(&self) -> Seq<Envelope<SendPayload>> {
        self.queue@
    }

    pub closed spec fn spec_jobs(&self) -> Seq<JobState> {
        self.jobs@
    }

    pub closed spec fn resolutions(&self) -> Seq<usize> {
        self.jobs.resolutions()
    }

    pub closed spec fn buckets(&self) -> Seq<Bucket> {
        self.gate.buckets()
    }

    /// Gated sends started, in order: the bucket index and the start time.
    pub closed spec fn sends(&self) -> Seq<(int, u64)> {
        self.gate.sends()
    }

    pub closed spec fn in_service(&self) -> Option<Envelope<SendPayload>> {
        self.in_flight
    }

    pub closed spec fn taken_count(&self) -> nat {
        self.taken as nat
    }

    pub closed spec fn spec_capacity(&self) -> nat {
        self.queue.spec_capacity()
    }

    pub closed spec fn spec_closed(&self) -> bool {
        self.queue.spec_closed()
    }

    pub open spec fn fits(&self, now: u64) -> bool {
        forall|i: int| 0 <= i < self.buckets().len() ==> now + (#[trigger] self.buckets()[i]).interval <= u64::MAX
    }

    pub closed spec fn wf(&self) -> bool {
        &&& self.queue.wf()
        &&& self.jobs.wf()
        &&& self.gate.wf()
        &&& self.taken + self.queue@.len() == self.jobs@.len()
        &&& forall|i: int| 0 <= i < self.queue@.len() ==> (#[trigger] self.queue@[i]).job == self.taken + i
        &&& forall|i: int|
            0 <= i < self.queue@.len() ==> send_well_formed(&(#[trigger] self.queue@[i]).payload, self.gate.buckets())
        &&& serves_in_order(self.jobs@, self.taken as int, self.in_flight is Some)
        &&& self.in_flight matches Some(e) ==> self.taken >= 1 && e.job == self.taken - 1
    }

    /// Why `submit` would refuse `p`, checked in this order; `None` if it is taken.
    pub open spec fn refusal(&self, p: &SendPayload) -> Option<SubmitError> {
        if !send_well_formed(p, self.buckets()) {
            Some(SubmitError::Rejected(ErrorKind::ValidationError))
        } else if self.spec_closed() {
            Some(SubmitError::Rejected(ErrorKind::Unavailable))
        } else if self.queued().len() >= self.spec_capacity() {
            Some(SubmitError::Full)
        } else if self.spec_jobs().len() >= usize::MAX {
            Some(SubmitError::Rejected(ErrorKind::Internal))
        } else {
            None
        }
    }

    /// A worker with the buckets of `gate`, whose queue holds at most
    /// `capacity` commands.
    pub fn new(capacity: usize, gate: RateGate) -> (w: Self)
        requires
            gate.wf(),
        ensures
            w.wf(),
            w.queued() == Seq::<Envelope<SendPayload>>::empty(),
            w.spec_jobs() == Seq::<JobState>::empty(),
            w.buckets() == gate.buckets(),
            w.sends() == gate.sends(),
            w.in_service() is None,
            w.spec_capacity() == capacity,
            !w.spec_closed(),
    {
        SendWorker {
            queue: BoundedQueue::new(capacity),
            jobs: JobTable::new(),
            gate,
            in_flight: None,
            taken: 0,
        }
    }

    /// Checks `payload` and queues it under a fresh job id, which is returned.
    pub fn submit(&mut self, author: String, payload: SendPayload) -> (r: Result<usize, SubmitError>)
        requires
            old(self).wf(),
        ensures
            final(self).wf(),
            terminal_kept(old(self).spec_jobs(), final(self).spec_jobs()),
            final(self).buckets() == old(self).buckets(),
            final(self).sends() == old(self).sends(),
            final(self).in_service() == old(self).in_service(),
            final(self).resolutions() == old(self).resolutions(),
            final(self).spec_capacity() == old(self).spec_capacity(),
            final(self).spec_closed() == old(self).spec_closed(),
            old(self).refusal(&payload) matches Some(e) ==> r == Err::<usize, SubmitError>(e)
                && final(self).queued() == old(self).queued() && final(self).spec_jobs() == old(self).spec_jobs(),
            old(self).refusal(&payload) is None ==> r == Ok::<usize, SubmitError>(
                old(self).spec_jobs().len() as usize,
            ) && final(self).queued() == old(self).queued().push(
                Envelope { job: old(self).spec_jobs().len() as usize, author, payload },
            ) && final(self).spec_jobs() == old(self).spec_jobs().push(JobState::Queued),
    {
        if !self.is_well_formed(&payload) {
            return Err(SubmitError::Rejected(ErrorKind::ValidationError));
        }
        if self.queue.is_closed() {
            return Err(SubmitError::Rejected(ErrorKind::Unavailable));
        }
        if self.queue.len() >= self.queue.capacity() {
            return Err(SubmitError::Full);
        }
        if self.jobs.len() == usize::MAX {
            return Err(SubmitError::Rejected(ErrorKind::Internal));
        }
        let job = match self.jobs.allocate() {
            Some(j) => j,
            None => {
                return Err(SubmitError::Rejected(ErrorKind::Internal));
            },
        };
        let pushed = self.queue.push(Envelope { job, author, payload });
        assert(pushed is Ok);
        proof {
            assert forall|i: int| 0 <= i < self.queue@.len() implies (#[trigger] self.queue@[i]).job
                == self.taken + i && send_well_formed(&self.queue@[i].payload, self.gate.buckets()) by {
                if i < old(self).queue@.len() {
                    assert(self.queue@[i] == old(self).queue@[i]);
                }
            }
            assert forall|j: int| 0 <= j < self.taken implies (#[trigger] self.jobs@[j]
                == JobState::Processing <==> (self.in_flight is Some && j == self.taken - 1)) by {
                assert(self.jobs@[j] == old(self).jobs@[j]);
            }
            assert forall|j: int|
                0 <= j < self.taken && #[trigger] self.jobs@[j] != JobState::Processing implies is_terminal(
                self.jobs@[j],
            ) by {
                assert(self.jobs@[j] == old(self).jobs@[j]);
            }
        }
        Ok(job)
    }

    /// The templates still queued for `recipient`, in queue order.
    pub fn queued_for(&self, recipient: &String) -> (r: Vec<String>)
        requires
            self.wf(),
        ensures
            r@.map_values(|s: String| s@) == queued_templates(self.queued(), recipient@),
    {
        templates_for(&self.queue, recipient)
    }

    /// Each recipient with queued sends, with its templates in queue order.
    pub fn listing(&self) -> (l: Vec<(String, Vec<String>)>)
        requires
            self.wf(),
        ensures
            is_listing(l@, self.queued()),
    {
        listing_of(&self.queue)
    }

    /// Whether every bucket's next cooldown fits when a send starts at `now`.
    pub fn fits_at(&self, now: u64) -> (r: bool)
        requires
            self.wf(),
        ensures
            r == self.fits(now),
    {
        let r = self.gate.check_fits(now);
        assert(self.buckets() == self.gate.buckets());
        r
    }

    /// Serves the oldest queued command at time `now`, unless a call is in
    /// flight. A `Queue` send whose bucket is still cooling down stays queued
    /// and the worker waits; once eligible, it starts and its bucket's next
    /// eligible time becomes `now` plus the bucket's interval. `Delete` and
    /// `List` are not rate limited and leave every cooldown unchanged.
    pub fn start_next(&mut self, now: u64) -> (r: SendStep)
        requires
            old(self).wf(),
            old(self).fits(now),
        ensures
            final(self).wf(),
            terminal_kept(old(self).spec_jobs(), final(self).spec_jobs()),
            final(self).spec_capacity() == old(self).spec_capacity(),
            final(self).spec_closed() == old(self).spec_closed(),
            old(self).in_service() is Some || old(self).queued().len() == 0 ==> r is Idle && *final(self)
                == *old(self),
            old(self).in_service() is None && old(self).queued().len() > 0 ==> {
                let e = old(self).queued()[0];
                let bs = old(self).buckets();
                let popped = {
                    &&& e.job == old(self).taken_count()
                    &&& final(self).queued() == old(self).queued().drop_first()
                    &&& final(self).taken_count() == old(self).taken_count() + 1
                };
                let taken = {
                    &&& popped
                    &&& r == (SendStep::Call { job: e.job, call: e.payload })
                    &&& final(self).spec_jobs() == old(self).spec_jobs().update(
                        e.job as int,
                        JobState::Processing,
                    )
                    &&& final(self).resolutions() == old(self).resolutions()
                    &&& final(self).in_service() == Some(e)
                };
                match gated_category(&e.payload) {
                    None => if e.payload is List {
                        &&& popped
                        &&& r matches SendStep::Listed { job, listing } && job == e.job && is_listing(
                            listing@,
                            old(self).queued().drop_first(),
                        )
                        &&& final(self).spec_jobs() == old(self).spec_jobs().update(
                            e.job as int,
                            JobState::Succeeded(e.job as u64),
                        )
                        &&& final(self).resolutions() == old(self).resolutions().push(e.job)
                        &&& final(self).in_service() is None
                        &&& final(self).buckets() == bs
                        &&& final(self).sends() == old(self).sends()
                    } else {
                        taken && final(self).buckets() == bs && final(self).sends() == old(self).sends()
                    },
                    Some(c) => {
                        let i = bucket_index(bs, c);
                        &&& 0 <= i < bs.len()
                        &&& bs[i].category == c
                        &&& now < bs[i].next_eligible ==> r == (SendStep::Wait { until: bs[i].next_eligible })
                            && *final(self) == *old(self)
                        &&& now >= bs[i].next_eligible ==> taken && final(self).buckets() == bs.update(
                            i,
                            Bucket { next_eligible: (now + bs[i].interval) as u64, ..bs[i] },
                        ) && final(self).sends() == old(self).sends().push((i, now))
                    },
                }
            },
    {
        if self.in_flight.is_some() {
            return SendStep::Idle;
        }
        let gate_index: Option<usize> = match self.queue.peek() {
            None => {
                return SendStep::Idle;
            },
            Some(head) => match head.payload.gated() {
                None => None,
                Some(c) => {
                    proof {
                        assert(send_well_formed(&self.queue@[0].payload, self.gate.buckets()));
                    }
                    let i = self.gate.find(c).unwrap();
                    proof {
                        let bs = self.gate.buckets();
                        let k = bucket_index(bs, c);
                        assert(has_category(bs, c));
                        assert(0 <= k < bs.len() && bs[k].category == c);
                        if k != i {
                            if k < i {
                                assert(bs[k].category != bs[i as int].category);
                            } else {
                                assert(bs[i as int].category != bs[k].category);
                            }
                        }
                    }
                    let b = self.gate.bucket(i);
                    if now < b.next_eligible {
                        return SendStep::Wait { until: b.next_eligible };
                    }
                    Some(i)
                },
            },
        };
        let e = self.queue.pop().unwrap();
        let ghost old_jobs = self.jobs@;
        let n = self.jobs.len();
        self.jobs.begin(e.job);
        self.taken = self.taken + 1;
        match gate_index {
            Some(i) => {
                assert(self.gate.buckets() == old(self).buckets());
                self.gate.start_send(i, now);
            },
            None => {},
        }
        proof {
            let obs = old(self).gate.buckets();
            let bs = self.gate.buckets();
            assert forall|i: int| 0 <= i < self.queue@.len() implies send_well_formed(
                &(#[trigger] self.queue@[i]).payload,
                bs,
            ) by {
                assert(self.queue@[i] == old(self).queue@[i + 1]);
                let p = self.queue@[i].payload;
                assert(send_well_formed(&p, obs));
                if let SendPayload::Queue { category, .. } = p {
                    let k = choose|k: int| 0 <= k < obs.len() && (#[trigger] obs[k]).category == category;
                    assert(bs[k].category == obs[k].category);
                }
            }
        }
        let job = e.job;
        if let SendPayload::List = e.payload {
            let listing = listing_of(&self.queue);
            self.jobs.resolve(job, Ok(job as u64));
            proof {
                lemma_service_step(old_jobs, self.jobs@, job as int, self.in_flight is Some);
            }
            return SendStep::Listed { job, listing };
        }
        let call = e.payload.duplicate();
        self.in_flight = Some(e);
        proof {
            lemma_service_step(old_jobs, self.jobs@, job as int, self.in_flight is Some);
            let obs = old(self).gate.buckets();
            let bs = self.gate.buckets();
            assert forall|i: int| 0 <= i < self.queue@.len() implies send_well_formed(
                &(#[trigger] self.queue@[i]).payload,
                bs,
            ) by {
                assert(self.queue@[i] == old(self).queue@[i + 1]);
                let p = self.queue@[i].payload;
                assert(send_well_formed(&p, obs));
                if let SendPayload::Queue { category, .. } = p {
                    let k = choose|k: int| 0 <= k < obs.len() && (#[trigger] obs[k]).category == category;
                    assert(bs[k].category == obs[k].category);
                }
            }
        }
        SendStep::Call { job, call }
    }

    /// Settles the call in flight: `delivered` tells whether the remote
    /// operation succeeded. Returns the job id and its outcome, which carries
    /// the job id on success and `ExternalApiError` on failure; `None` if no
    /// call is in flight. Failed sends are not retried.
    pub fn complete(&mut self, delivered: bool) -> (r: Option<(usize, Result<u64, ErrorKind>)>)
        requires
            old(self).wf(),
        ensures
            final(self).wf(),
            terminal_kept(old(self).spec_jobs(), final(self).spec_jobs()),
            final(self).queued() == old(self).queued(),
            final(self).buckets() == old(self).buckets(),
            final(self).sends() == old(self).sends(),
            final(self).taken_count() == old(self).taken_count(),
            final(self).in_service() is None,
            final(self).spec_capacity() == old(self).spec_capacity(),
            final(self).spec_closed() == old(self).spec_closed(),
            old(self).in_service() is None ==> r is None && final(self).spec_jobs() == old(self).spec_jobs()
                && final(self).resolutions() == old(self).resolutions(),
            old(self).in_service() matches Some(e) ==> {
                let outcome = if delivered {
                    Ok::<u64, ErrorKind>(e.job as u64)
                } else {
                    Err::<u64, ErrorKind>(ErrorKind::ExternalApiError)
                };
                &&& r == Some((e.job, outcome))
                &&& final(self).spec_jobs() == old(self).spec_jobs().update(e.job as int, outcome_state(outcome))
                &&& final(self).resolutions() == old(self).resolutions().push(e.job)
            },
    {
        let e = match self.in_flight.take() {
            Some(e) => e,
            None => {
                return None;
            },
        };
        let ghost old_jobs = self.jobs@;
        let job = e.job;
        let outcome: Result<u64, ErrorKind> = if delivered {
            Ok(job as u64)
        } else {
            Err(ErrorKind::ExternalApiError)
        };
        self.jobs.resolve(job, outcome);
        proof {
            lemma_service_step(old_jobs, self.jobs@, job as int, self.in_flight is Some);
        }
        Some((job, outcome))
    }

    /// The state of job `job`; reading it changes nothing, so repeated reads agree.
    pub fn status(&self, job: usize) -> (r: Option<JobState>)
        requires
            self.wf(),
        ensures
            job < self.spec_jobs().len() ==> r == Some(self.spec_jobs()[job as int]),
            job >= self.spec_jobs().len() ==> r is None,
    {
        self.jobs.status(job)
    }

    pub fn queued_count(&self) -> (r: usize)
        requires
            self.wf(),
        ensures
            r == self.queued().len(),
    {
        self.queue.len()
    }

    /// A remote call is in flight.
    pub fn is_busy(&self) -> (r: bool)
        requires
            self.wf(),
        ensures
            r == self.in_service() is Some,
    {
        self.in_flight.is_some()
    }

    /// Stops taking new commands; those already queued are still served.
    pub fn close(&mut self)
        requires
            old(self).wf(),
        ensures
            final(self).wf(),
            final(self).spec_closed(),
            final(self).queued() == old(self).queued(),
            final(self).spec_jobs() == old(self).spec_jobs(),
            final(self).resolutions() == old(self).resolutions(),
            final(self).buckets() == old(self).buckets(),
            final(self).sends() == old(self).sends(),
            final(self).in_service() == old(self).in_service(),
            final(self).spec_capacity() == old(self).spec_capacity(),
    {
        self.queue.close();
    }

    /// Any two gated sends of one bucket started at least the bucket's
    /// interval apart; `Delete` and `List` never enter this log.
    pub proof fn lemma_sends_spaced(&self, a: int, b: int)
        requires
            self.wf(),
            0 <= a < b < self.sends().len(),
            self.sends()[a].0 == self.sends()[b].0,
        ensures
            0 <= self.sends()[a].0 < self.buckets().len(),
            self.sends()[b].1 >= self.sends()[a].1 + self.buckets()[self.sends()[a].0].interval,
    {
        self.gate.lemma_sends_spaced(a, b);
    }

    /// At most one command is in service at a time, and one is exactly when
    /// a remote call is in flight.
    pub proof fn lemma_one_in_service(&self)
        requires
            self.wf(),
        ensures
            forall|j: int, k: int|
                0 <= j < self.spec_jobs().len() && 0 <= k < self.spec_jobs().len()
                    && #[trigger] self.spec_jobs()[j] == JobState::Processing
                    && #[trigger] self.spec_jobs()[k] == JobState::Processing ==> j == k,
            self.in_service() matches Some(e) ==> e.job < self.spec_jobs().len()
                && self.spec_jobs()[e.job as int] == JobState::Processing,
    {
        lemma_single_service(self.jobs@, self.taken as int, self.in_flight is Some);
    }

    /// Every command taken from the queue, except the one in flight, has been
    /// resolved exactly once, and only taken commands are ever resolved.
    pub proof fn lemma_resolved_once(&self)
        requires
            self.wf(),
        ensures
            self.resolutions().no_duplicates(),
            forall|i: int|
                0 <= i < self.resolutions().len() ==> #[trigger] self.resolutions()[i] < self.taken_count()
                    && is_terminal(self.spec_jobs()[self.resolutions()[i] as int]),
            forall|j: int|
                0 <= j < self.taken_count() && !(self.in_service() is Some && j == self.taken_count() - 1)
                    ==> is_terminal(#[trigger] self.spec_jobs()[j]) && self.resolutions().contains(
                    j as usize,
                ),
    {
        crate::jobs::lemma_resolved_once(&self.jobs, self.taken as int, self.in_flight is Some);
    }

    fn is_well_formed(&self, p: &SendPayload) -> (r: bool)
        requires
            self.gate.wf(),
        ensures
            r == send_well_formed(p, self.buckets()),
    {
        match p {
            SendPayload::Queue { recipient, template, category } => !recipient.as_str().is_empty()
                && !template.as_str().is_empty() && self.gate.find(*category).is_some(),
            SendPayload::Delete { recipient, template } => !recipient.as_str().is_empty()
                && !template.as_str().is_empty(),
            SendPayload::List => true,
        }
    }
}

} // verus!
