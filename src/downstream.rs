//! State of one downstream connection: its channels and their jobs, the
//! future jobs waiting for a previous hash, and the order in which jobs and
//! previous hashes go out on the wire.
use vstd::prelude::*;

verus! {

use crate::errors::Error;
use crate::extranonce::{counter_of, repeat, ExtendedExtranonce};
use crate::job::{
    copy_bytes,
    slice_view,
    validated,
    CompleteJob,
    Job,
    NewExtendedMiningJob,
    SubmitSolution,
    VelideateTargetResult,
};
use crate::messages::{
    Mining,
    OpenExtendedMiningChannelSuccess,
    ShareErrorCode,
    SubmitSharesError,
    SubmitSharesExtended,
    SubmitSharesSuccess,
};

/// Binds a previous block hash to a job of a channel.
pub struct SetNewPrevHash {
    pub channel_id: u32,
    pub job_id: u32,
    /// 32 bytes in internal order.
    pub prev_hash: Vec<u8>,
    pub min_ntime: u32,
    pub nbits: u32,
}

impl SetNewPrevHash {
    /// A copy of the message.
    pub fn copy(&self) -> (r: SetNewPrevHash)
        ensures
            r.channel_id == self.channel_id,
            r.job_id == self.job_id,
            r.prev_hash@ == self.prev_hash@,
            r.min_ntime == self.min_ntime,
            r.nbits == self.nbits,
    {
        SetNewPrevHash {
            channel_id: self.channel_id,
            job_id: self.job_id,
            prev_hash: copy_bytes(&self.prev_hash),
            min_ntime: self.min_ntime,
            nbits: self.nbits,
        }
    }
}

/// What the wire has carried to a downstream, as far as the order of jobs
/// and previous hashes is concerned.
pub enum Announcement {
    Job { job_id: u32, future: bool },
    /// `activating` is set when the hash made a waiting future job active.
    PrevHash { job_id: u32, activating: bool },
}

/// Some entry before `upto` announces `job_id` as a future job.
pub open spec fn announced_future(log: Seq<Announcement>, job_id: u32, upto: int) -> bool {
    exists|k: int|
        0 <= k < upto && #[trigger] log[k] == (Announcement::Job { job_id, future: true })
}

/// Every previous hash that activated a future job came after that job.
pub open spec fn activations_follow_jobs(log: Seq<Announcement>) -> bool {
    forall|i: int|
        #![trigger log[i]]
        0 <= i < log.len() ==> match log[i] {
            Announcement::PrevHash { job_id, activating } => activating ==> announced_future(
                log,
                job_id,
                i,
            ),
            _ => true,
        }
}

proof fn lemma_announced_push(log: Seq<Announcement>, x: Announcement, job_id: u32, upto: int)
    requires
        announced_future(log, job_id, upto),
        upto <= log.len(),
    ensures
        announced_future(log.push(x), job_id, upto),
{
    let k = choose|k: int|
        0 <= k < upto && #[trigger] log[k] == (Announcement::Job { job_id, future: true });
    assert(log.push(x)[k] == log[k]);
}

proof fn lemma_follow_push(log: Seq<Announcement>, x: Announcement)
    requires
        activations_follow_jobs(log),
        match x {
            Announcement::PrevHash { job_id, activating } => activating ==> announced_future(
                log,
                job_id,
                log.len() as int,
            ),
            _ => true,
        },
    ensures
        activations_follow_jobs(log.push(x)),
{
    let l2 = log.push(x);
    assert forall|i: int| #![trigger l2[i]] 0 <= i < l2.len() implies match l2[i] {
        Announcement::PrevHash { job_id, activating } => activating ==> announced_future(
            l2,
            job_id,
            i,
        ),
        _ => true,
    } by {
        if i < log.len() {
            assert(l2[i] == log[i]);
            match log[i] {
                Announcement::PrevHash { job_id, activating } => {
                    if activating {
                        lemma_announced_push(log, x, job_id, i);
                    }
                },
                _ => {},
            }
        } else {
            match x {
                Announcement::PrevHash { job_id, activating } => {
                    if activating {
                        lemma_announced_push(log, x, job_id, i);
                    }
                },
                _ => {},
            }
        }
    }
}

/// What checking a share on the channel at index `i` of `before` returns,
/// and the channels it leaves behind in `after`.
pub open spec fn share_outcome(
    before: Seq<(u32, Job)>,
    after: Seq<(u32, Job)>,
    i: int,
    nonce: u32,
    version: u32,
    ntime: u32,
    sfx: Option<Seq<u8>>,
    r: Result<VelideateTargetResult, Error>,
) -> bool {
    let channel_id = before[i].0;
    match before[i].1 {
        Job::Partial(_) => r == Err::<VelideateTargetResult, Error>(
            Error::JobNotComplete(channel_id),
        ) && after == before,
        Job::Complete(c) => {
            if sfx is Some && sfx->Some_0.len() > c.extranonce@.len() {
                r == Err::<VelideateTargetResult, Error>(
                    Error::ExtranonceTooLong(sfx->Some_0.len() as usize),
                ) && after == before
            } else {
                &&& r is Ok
                &&& after.len() == before.len()
                &&& forall|k: int|
                    0 <= k < before.len() && k != i ==> #[trigger] after[k] == before[k]
                &&& after[i].0 == channel_id
                &&& exists|job: CompleteJob|
                    #[trigger] validated(c, job, nonce, version, ntime, sfx, r->Ok_0)
                        && if r->Ok_0 is LessThanBitcoinTarget {
                        after[i].1.is_partial_of(c.target@, c.extranonce@)
                    } else {
                        after[i].1 == Job::Complete(job)
                    }
            }
        },
    }
}

/// One downstream connection and its extended channels.
pub struct Downstream {
    /// Group id of the connection.
    id: u32,
    /// The last channel id handed out.
    channel_ids: u32,
    /// Channel id and job of each open channel.
    jobs: Vec<(u32, Job)>,
    /// Future jobs waiting for a previous hash, with their template ids.
    future_jobs: Vec<(NewExtendedMiningJob, u64)>,
    /// Channel id and extranonce prefix of each open channel.
    prefixes: Vec<(u32, Vec<u8>)>,
    last_prev_hash: Option<Vec<u8>>,
    last_nbits: Option<u32>,
    /// The job that is active now, with its template id.
    last_valid_extended_job: Option<(NewExtendedMiningJob, u64)>,
    /// Jobs and previous hashes handed out for sending, in order.
    sent: Ghost<Seq<Announcement>>,
}

impl Downstream {
    pub closed spec fn spec_id(&self) -> u32 {
        self.id
    }

    pub closed spec fn spec_jobs(&self) -> Seq<(u32, Job)> {
        self.jobs@
    }

    pub closed spec fn spec_future_jobs(&self) -> Seq<(NewExtendedMiningJob, u64)> {
        self.future_jobs@
    }

    pub closed spec fn spec_prefixes(&self) -> Seq<(u32, Vec<u8>)> {
        self.prefixes@
    }

    pub closed spec fn spec_last_prev_hash(&self) -> Option<Seq<u8>> {
        match self.last_prev_hash {
            None => None,
            Some(h) => Some(h@),
        }
    }

    pub closed spec fn spec_last_nbits(&self) -> Option<u32> {
        self.last_nbits
    }

    pub closed spec fn spec_last_valid_extended_job(&self) -> Option<(NewExtendedMiningJob, u64)> {
        self.last_valid_extended_job
    }

    pub closed spec fn spec_channel_ids(&self) -> u32 {
        self.channel_ids
    }

    /// Jobs and previous hashes handed out for sending, oldest first.
    pub closed spec fn sent(&self) -> Seq<Announcement> {
        self.sent@
    }

    /// A future job with this id is waiting.
    pub open spec fn has_future(&self, job_id: u32) -> bool {
        exists|i: int|
            0 <= i < self.spec_future_jobs().len() && #[trigger] self.spec_future_jobs()[i].0.job_id
                == job_id
    }

    /// Where the channel with this id stands among the open channels.
    pub open spec fn channel_index(&self, channel_id: u32) -> int {
        choose|i: int|
            0 <= i < self.spec_jobs().len() && #[trigger] self.spec_jobs()[i].0 == channel_id
    }

    /// The channel with this id is open.
    pub open spec fn has_channel(&self, channel_id: u32) -> bool {
        exists|i: int|
            0 <= i < self.spec_jobs().len() && #[trigger] self.spec_jobs()[i].0 == channel_id
    }

    /// `after` is this downstream once it has taken in a previous hash
    /// for `job_id`: the future job with that id, if any, is active on
    /// every channel, no future job waits, and the hash is kept.
    pub open spec fn took_prev_hash(
        &self,
        after: &Downstream,
        job_id: u32,
        prev_hash: Seq<u8>,
        nbits: u32,
    ) -> bool {
        let activated = self.has_future(job_id);
        &&& after.spec_id() == self.spec_id()
        &&& after.spec_future_jobs().len() == 0
        &&& after.spec_last_prev_hash() == Some(prev_hash)
        &&& after.spec_last_nbits() == Some(nbits)
        &&& after.sent() == self.sent().push(
            Announcement::PrevHash { job_id, activating: activated },
        )
        &&& after.spec_prefixes() == self.spec_prefixes()
        &&& after.spec_channel_ids() == self.spec_channel_ids()
        &&& after.spec_jobs().len() == self.spec_jobs().len()
        &&& !activated ==> after.spec_jobs() == self.spec_jobs()
            && after.spec_last_valid_extended_job()
            == self.spec_last_valid_extended_job()
        &&& activated ==> exists|f: int|
            #![trigger self.spec_future_jobs()[f]]
            0 <= f < self.spec_future_jobs().len()
                && self.spec_future_jobs()[f].0.job_id == job_id && {
                let (fj, tid) = self.spec_future_jobs()[f];
                &&& after.spec_last_valid_extended_job() is Some
                &&& after.spec_last_valid_extended_job()->Some_0.0.same_as(&fj)
                &&& after.spec_last_valid_extended_job()->Some_0.1 == tid
                &&& forall|i: int|
                    #![trigger after.spec_jobs()[i]]
                    0 <= i < after.spec_jobs().len() ==> {
                        &&& after.spec_jobs()[i].0 == self.spec_jobs()[i].0
                        &&& after.spec_jobs()[i].1 is Complete
                        &&& after.spec_jobs()[i].1->Complete_0.built_from(
                            self.spec_jobs()[i].1.target_view(),
                            self.spec_jobs()[i].1.extranonce_view(),
                            fj,
                            nbits,
                            prev_hash,
                            tid,
                        )
                    }
            }
    }

    /// A non-future job is refused while channels are open and no previous
    /// hash is known.
    pub open spec fn refuses_extended_job(&self, message: NewExtendedMiningJob) -> bool {
        !message.future_job && self.spec_jobs().len() > 0 && self.spec_last_prev_hash() is None
    }

    /// `after` is this downstream once it has taken in `message`: a future
    /// job waits under its id; any other is active on every channel.
    pub open spec fn took_extended_job(
        &self,
        after: &Downstream,
        message: NewExtendedMiningJob,
        template_id: u64,
    ) -> bool {
        &&& after.spec_id() == self.spec_id()
        &&& after.sent() == self.sent().push(
            Announcement::Job { job_id: message.job_id, future: message.future_job },
        )
        &&& after.spec_prefixes() == self.spec_prefixes()
        &&& after.spec_channel_ids() == self.spec_channel_ids()
        &&& after.spec_last_prev_hash() == self.spec_last_prev_hash()
        &&& after.spec_last_nbits() == self.spec_last_nbits()
        &&& message.future_job ==> {
            &&& after.spec_jobs() == self.spec_jobs()
            &&& after.spec_last_valid_extended_job()
                == self.spec_last_valid_extended_job()
            &&& after.has_future(message.job_id)
            &&& exists|f: int|
                0 <= f < after.spec_future_jobs().len()
                    && #[trigger] after.spec_future_jobs()[f].0.same_as(&message)
                    && after.spec_future_jobs()[f].1 == template_id
            &&& forall|j: u32|
                j != message.job_id ==> (after.has_future(j)
                    == self.has_future(j))
        }
        &&& !message.future_job ==> {
            &&& after.spec_future_jobs() == self.spec_future_jobs()
            &&& after.spec_last_valid_extended_job() is Some
            &&& after.spec_last_valid_extended_job()->Some_0.0.same_as(&message)
            &&& after.spec_last_valid_extended_job()->Some_0.1 == template_id
            &&& after.spec_jobs().len() == self.spec_jobs().len()
            &&& forall|i: int|
                #![trigger after.spec_jobs()[i]]
                0 <= i < after.spec_jobs().len() ==> {
                    &&& after.spec_jobs()[i].0 == self.spec_jobs()[i].0
                    &&& after.spec_jobs()[i].1 is Complete
                    &&& after.spec_jobs()[i].1->Complete_0.built_from(
                        self.spec_jobs()[i].1.target_view(),
                        self.spec_jobs()[i].1.extranonce_view(),
                        message,
                        self.spec_last_nbits()->Some_0,
                        self.spec_last_prev_hash()->Some_0,
                        template_id,
                    )
                }
        }
    }

    pub closed spec fn wf(&self) -> bool {
        &&& forall|i: int, j: int|
            #![trigger self.jobs@[i].0, self.jobs@[j].0]
            0 <= i < j < self.jobs@.len() ==> self.jobs@[i].0 != self.jobs@[j].0
        &&& forall|i: int|
            #![trigger self.jobs@[i]]
            0 <= i < self.jobs@.len() ==> {
                &&& self.jobs@[i].1.wf()
                &&& 0 < self.jobs@[i].0 <= self.channel_ids
                &&& self.jobs@[i].1 is Complete ==> self.last_prev_hash is Some
                    && self.last_nbits is Some
            }
        &&& forall|i: int, j: int|
            #![trigger self.future_jobs@[i].0.job_id, self.future_jobs@[j].0.job_id]
            0 <= i < j < self.future_jobs@.len() ==> self.future_jobs@[i].0.job_id
                != self.future_jobs@[j].0.job_id
        &&& forall|i: int|
            #![trigger self.future_jobs@[i]]
            0 <= i < self.future_jobs@.len() ==> self.future_jobs@[i].0.future_job
                && announced_future(
                self.sent@,
                self.future_jobs@[i].0.job_id,
                self.sent@.len() as int,
            )
        &&& self.last_prev_hash is Some ==> self.last_prev_hash->Some_0@.len() == 32
        &&& (self.last_prev_hash is Some) == (self.last_nbits is Some)
        &&& activations_follow_jobs(self.sent@)
    }

    /// Group id of the connection.
    pub fn id(&self) -> (r: u32)
        ensures
            r == self.spec_id(),
    {
        self.id
    }

    /// In a well-formed downstream no two waiting future jobs share an id,
    /// every waiting job is a future job, and a complete channel job implies
    /// a known previous hash.
    pub proof fn lemma_wf(&self)
        requires
            self.wf(),
        ensures
            forall|i: int, j: int|
                0 <= i < j < self.spec_future_jobs().len()
                    ==> #[trigger] self.spec_future_jobs()[i].0.job_id
                    != #[trigger] self.spec_future_jobs()[j].0.job_id,
            forall|i: int|
                0 <= i < self.spec_future_jobs().len()
                    ==> #[trigger] self.spec_future_jobs()[i].0.future_job,
            forall|i: int, j: int|
                0 <= i < j < self.spec_jobs().len() ==> #[trigger] self.spec_jobs()[i].0
                    != #[trigger] self.spec_jobs()[j].0,
            forall|i: int|
                0 <= i < self.spec_jobs().len() ==> (#[trigger] self.spec_jobs()[i].1).wf()
                    && (self.spec_jobs()[i].1 is Complete ==> self.spec_last_prev_hash() is Some),
            self.spec_last_prev_hash() is Some ==> self.spec_last_prev_hash()->Some_0.len() == 32,
            activations_follow_jobs(self.sent()),
    {
        assert forall|i: int|
            0 <= i < self.spec_future_jobs().len() implies #[trigger] self.spec_future_jobs()[i].0.future_job by {
            assert(self.future_jobs@[i] == self.spec_future_jobs()[i]);
        }
        assert forall|i: int|
            0 <= i < self.spec_jobs().len() implies (#[trigger] self.spec_jobs()[i].1).wf()
            && (self.spec_jobs()[i].1 is Complete ==> self.spec_last_prev_hash() is Some) by {
            assert(self.jobs@[i] == self.spec_jobs()[i]);
        }
    }

    /// Index of the waiting future job with this id, if any.
    fn find_future(&self, job_id: u32) -> (r: Option<usize>)
        ensures
            r is None ==> !self.has_future(job_id),
            r is Some ==> r->Some_0 < self.future_jobs@.len() && self.future_jobs@[r->Some_0 as int].0.job_id
                == job_id,
    {
        let mut i: usize = 0;
        while i < self.future_jobs.len()
            invariant
                i <= self.future_jobs@.len(),
                forall|k: int| 0 <= k < i ==> self.future_jobs@[k].0.job_id != job_id,
            decreases self.future_jobs@.len() - i,
        {
            if self.future_jobs[i].0.job_id == job_id {
                return Some(i);
            }
            i = i + 1;
        }
        None
    }

    /// Binds `new_ext_job` and a previous hash to every open channel.
    fn update_all_jobs(
        &mut self,
        new_ext_job: &NewExtendedMiningJob,
        nbits: u32,
        prev_hash: &Vec<u8>,
        template_id: u64,
    )
        requires
            forall|i: int|
                #![trigger old(self).jobs@[i]]
                0 <= i < old(self).jobs@.len() ==> old(self).jobs@[i].1.wf(),
            prev_hash@.len() == 32,
        ensures
            final(self).jobs@.len() == old(self).jobs@.len(),
            forall|i: int|
                #![trigger final(self).jobs@[i]]
                0 <= i < final(self).jobs@.len() ==> {
                    &&& final(self).jobs@[i].0 == old(self).jobs@[i].0
                    &&& final(self).jobs@[i].1.wf()
                    &&& final(self).jobs@[i].1 is Complete
                    &&& final(self).jobs@[i].1->Complete_0.built_from(
                        old(self).jobs@[i].1.target_view(),
                        old(self).jobs@[i].1.extranonce_view(),
                        *new_ext_job,
                        nbits,
                        prev_hash@,
                        template_id,
                    )
                },
            final(self).id == old(self).id,
            final(self).channel_ids == old(self).channel_ids,
            final(self).future_jobs == old(self).future_jobs,
            final(self).prefixes == old(self).prefixes,
            final(self).last_prev_hash == old(self).last_prev_hash,
            final(self).last_nbits == old(self).last_nbits,
            final(self).last_valid_extended_job == old(self).last_valid_extended_job,
            final(self).sent == old(self).sent,
    {
        let mut updated: Vec<(u32, Job)> = Vec::new();
        let mut i: usize = 0;
        while i < self.jobs.len()
            invariant
                i <= self.jobs@.len(),
                self.jobs == old(self).jobs,
                prev_hash@.len() == 32,
                updated@.len() == i,
                forall|k: int|
                    #![trigger old(self).jobs@[k]]
                    0 <= k < old(self).jobs@.len() ==> old(self).jobs@[k].1.wf(),
                forall|k: int|
                    #![trigger updated@[k]]
                    0 <= k < i ==> {
                        &&& updated@[k].0 == old(self).jobs@[k].0
                        &&& updated@[k].1.wf()
                        &&& updated@[k].1 is Complete
                        &&& updated@[k].1->Complete_0.built_from(
                            old(self).jobs@[k].1.target_view(),
                            old(self).jobs@[k].1.extranonce_view(),
                            *new_ext_job,
                            nbits,
                            prev_hash@,
                            template_id,
                        )
                    },
            decreases self.jobs@.len() - i,
        {
            let channel_id = self.jobs[i].0;
            let job = self.jobs[i].1.updated(new_ext_job, nbits, prev_hash, template_id);
            updated.push((channel_id, job));
            i = i + 1;
        }
        self.jobs = updated;
    }

    /// Takes in a previous hash for this downstream. When it names a waiting
    /// future job, every channel's job is rebuilt on that job and the hash,
    /// and that job becomes the active one. The hash and `nbits` are kept,
    /// the future jobs are dropped, and the message is handed back for
    /// sending. A hash that is not 32 bytes long is refused.
    pub fn on_new_prev_hash_sync(&mut self, message: SetNewPrevHash) -> (r: Result<
        SetNewPrevHash,
        Error,
    >)
        requires
            old(self).wf(),
        ensures
            final(self).wf(),
            final(self).spec_id() == old(self).spec_id(),
            (r is Err) == (message.prev_hash@.len() != 32),
            r is Err ==> r == Err::<SetNewPrevHash, Error>(
                Error::ExpectedLen32(message.prev_hash@.len() as usize),
            ) && *final(self) == *old(self),
            r is Ok ==> r->Ok_0 == message && old(self).took_prev_hash(
                final(self),
                message.job_id,
                message.prev_hash@,
                message.nbits,
            ),
    {
        if message.prev_hash.len() != 32 {
            return Err(Error::ExpectedLen32(message.prev_hash.len()));
        }
        let ghost activated = self.has_future(message.job_id);
        let ghost before = *self;
        let found = self.find_future(message.job_id);
        match found {
            Some(f) => {
                proof {
                    assert(before.spec_future_jobs()[f as int].0.job_id == message.job_id);
                }
                let future_job = self.future_jobs[f].0.copy();
                let template_id = self.future_jobs[f].1;
                proof {
                    assert(announced_future(
                        self.sent@,
                        message.job_id,
                        self.sent@.len() as int,
                    ));
                }
                self.update_all_jobs(&future_job, message.nbits, &message.prev_hash, template_id);
                self.last_valid_extended_job = Some((future_job, template_id));
                proof {
                    let fj = before.spec_future_jobs()[f as int].0;
                    assert(self.last_valid_extended_job->Some_0.0.same_as(&fj));
                }
            },
            None => {},
        }
        self.last_nbits = Some(message.nbits);
        self.last_prev_hash = Some(copy_bytes(&message.prev_hash));
        self.future_jobs = Vec::new();
        proof {
            let x = Announcement::PrevHash { job_id: message.job_id, activating: activated };
            lemma_follow_push(self.sent@, x);
            self.sent = Ghost(self.sent@.push(x));
        }
        Ok(message)
    }

    /// Takes in a new extended job for this downstream. A future job is
    /// kept (replacing one with the same id) until a previous hash
    /// activates it. Any other job becomes active at once: every channel's
    /// job is rebuilt on it with the last previous hash. The job is handed
    /// back for sending. Refused when a channel is open and no previous
    /// hash is known yet.
    pub fn on_new_extended_job(
        &mut self,
        message: NewExtendedMiningJob,
        template_id: u64,
    ) -> (r: Result<NewExtendedMiningJob, Error>)
        requires
            old(self).wf(),
        ensures
            final(self).wf(),
            final(self).spec_id() == old(self).spec_id(),
            (r is Err) == old(self).refuses_extended_job(message),
            r is Err ==> r == Err::<NewExtendedMiningJob, Error>(Error::PrevHashUnknown)
                && *final(self) == *old(self),
            r is Ok ==> r->Ok_0 == message && old(self).took_extended_job(
                final(self),
                message,
                template_id,
            ),
    {
        let ghost before = *self;
        if message.future_job {
            let stored = message.copy();
            let found = self.find_future(message.job_id);
            match found {
                Some(f) => {
                    self.future_jobs.set(f, (stored, template_id));
                },
                None => {
                    self.future_jobs.push((stored, template_id));
                },
            }
            proof {
                let x = Announcement::Job { job_id: message.job_id, future: true };
                lemma_follow_push(self.sent@, x);
                let old_log = self.sent@;
                self.sent = Ghost(self.sent@.push(x));
                assert(self.sent@[old_log.len() as int] == x);
                assert forall|i: int|
                    #![trigger self.future_jobs@[i]]
                    0 <= i < self.future_jobs@.len() implies self.future_jobs@[i].0.future_job
                    && announced_future(
                    self.sent@,
                    self.future_jobs@[i].0.job_id,
                    self.sent@.len() as int,
                ) by {
                    if self.future_jobs@[i].0.job_id != message.job_id {
                        assert(self.future_jobs@[i] == before.future_jobs@[i]);
                        lemma_announced_push(
                            old_log,
                            x,
                            self.future_jobs@[i].0.job_id,
                            old_log.len() as int,
                        );
                    }
                }
                match found {
                    Some(f) => {
                        assert(self.future_jobs@[f as int].0.job_id == message.job_id);
                        assert(self.spec_future_jobs()[f as int].0.same_as(&message));
                    },
                    None => {
                        let n = before.future_jobs@.len() as int;
                        assert(self.future_jobs@[n].0.job_id == message.job_id);
                        assert(self.spec_future_jobs()[n].0.same_as(&message));
                    },
                }
                assert forall|i: int, j: int|
                    #![trigger self.future_jobs@[i].0.job_id, self.future_jobs@[j].0.job_id]
                    0 <= i < j < self.future_jobs@.len() implies self.future_jobs@[i].0.job_id
                    != self.future_jobs@[j].0.job_id by {
                    match found {
                        Some(f) => {
                            if i != f && j != f {
                                assert(self.future_jobs@[i] == before.future_jobs@[i]);
                                assert(self.future_jobs@[j] == before.future_jobs@[j]);
                            } else if i == f {
                                assert(self.future_jobs@[j] == before.future_jobs@[j]);
                                assert(before.future_jobs@[j].0.job_id
                                    != before.future_jobs@[i].0.job_id);
                            } else {
                                assert(self.future_jobs@[i] == before.future_jobs@[i]);
                                assert(before.future_jobs@[j].0.job_id
                                    != before.future_jobs@[i].0.job_id);
                            }
                        },
                        None => {
                            assert(self.future_jobs@[i] == before.future_jobs@[i]);
                            if j < before.future_jobs@.len() {
                                assert(self.future_jobs@[j] == before.future_jobs@[j]);
                            } else {
                                assert(before.spec_future_jobs()[i].0.job_id
                                    == before.future_jobs@[i].0.job_id);
                            }
                        },
                    }
                }
                assert forall|j: u32| j != message.job_id implies (self.has_future(j)
                    == before.has_future(j)) by {
                    if before.has_future(j) {
                        let i = choose|i: int|
                            0 <= i < before.spec_future_jobs().len()
                                && #[trigger] before.spec_future_jobs()[i].0.job_id == j;
                        assert(self.future_jobs@[i] == before.future_jobs@[i]);
                        assert(self.spec_future_jobs()[i].0.job_id == j);
                    }
                    if self.has_future(j) {
                        let i = choose|i: int|
                            0 <= i < self.spec_future_jobs().len()
                                && #[trigger] self.spec_future_jobs()[i].0.job_id == j;
                        assert(self.future_jobs@[i] == before.future_jobs@[i]);
                        assert(before.spec_future_jobs()[i].0.job_id == j);
                    }
                }
            }
        } else {
            if self.jobs.len() > 0 && self.last_prev_hash.is_none() {
                return Err(Error::PrevHashUnknown);
            }
            if self.jobs.len() > 0 {
                let nbits = match self.last_nbits {
                    Some(n) => n,
                    None => 0,
                };
                let prev_hash = match &self.last_prev_hash {
                    Some(h) => copy_bytes(h),
                    None => Vec::new(),
                };
                self.update_all_jobs(&message, nbits, &prev_hash, template_id);
            }
            self.last_valid_extended_job = Some((message.copy(), template_id));
            proof {
                let x = Announcement::Job { job_id: message.job_id, future: false };
                lemma_follow_push(self.sent@, x);
                let old_log = self.sent@;
                self.sent = Ghost(self.sent@.push(x));
                assert forall|i: int|
                    #![trigger self.future_jobs@[i]]
                    0 <= i < self.future_jobs@.len() implies self.future_jobs@[i].0.future_job
                    && announced_future(
                    self.sent@,
                    self.future_jobs@[i].0.job_id,
                    self.sent@.len() as int,
                ) by {
                    lemma_announced_push(
                        old_log,
                        x,
                        self.future_jobs@[i].0.job_id,
                        old_log.len() as int,
                    );
                }
            }
        }
        Ok(message)
    }

    /// Index of the channel with this id, if open.
    fn find_channel(&self, channel_id: u32) -> (r: Option<usize>)
        ensures
            r is None ==> !self.has_channel(channel_id),
            r is Some ==> r->Some_0 < self.jobs@.len() && self.jobs@[r->Some_0 as int].0
                == channel_id,
    {
        let mut i: usize = 0;
        while i < self.jobs.len()
            invariant
                i <= self.jobs@.len(),
                forall|k: int| 0 <= k < i ==> self.jobs@[k].0 != channel_id,
            decreases self.jobs@.len() - i,
        {
            if self.jobs[i].0 == channel_id {
                return Some(i);
            }
            i = i + 1;
        }
        None
    }

    /// Checks a share submitted on a channel against that channel's job
    /// (see `CompleteJob::validate_target`). Refused when the channel is
    /// not open, when its job has no previous hash yet, or when the miner's
    /// extranonce part is longer than the channel's extranonce. A share that
    /// meets the network target turns the job back into a partial one.
    pub fn check_target(
        &mut self,
        channel_id: u32,
        nonce: u32,
        version: u32,
        ntime: u32,
        extranonce_suffix: Option<&[u8]>,
    ) -> (r: Result<VelideateTargetResult, Error>)
        requires
            old(self).wf(),
        ensures
            final(self).wf(),
            final(self).spec_id() == old(self).spec_id(),
            final(self).sent() == old(self).sent(),
            final(self).spec_future_jobs() == old(self).spec_future_jobs(),
            final(self).spec_prefixes() == old(self).spec_prefixes(),
            final(self).spec_channel_ids() == old(self).spec_channel_ids(),
            final(self).spec_last_prev_hash() == old(self).spec_last_prev_hash(),
            final(self).spec_last_nbits() == old(self).spec_last_nbits(),
            final(self).spec_last_valid_extended_job() == old(self).spec_last_valid_extended_job(),
            !old(self).has_channel(channel_id) ==> r == Err::<VelideateTargetResult, Error>(
                Error::ChannelNotFound(channel_id),
            ) && final(self).spec_jobs() == old(self).spec_jobs(),
            old(self).has_channel(channel_id) ==> share_outcome(
                old(self).spec_jobs(),
                final(self).spec_jobs(),
                old(self).channel_index(channel_id),
                nonce,
                version,
                ntime,
                slice_view(extranonce_suffix),
                r,
            ),
    {
        let found = self.find_channel(channel_id);
        let i = match found {
            None => {
                return Err(Error::ChannelNotFound(channel_id));
            },
            Some(i) => i,
        };
        proof {
            assert(self.has_channel(channel_id)) by {
                assert(self.spec_jobs()[i as int].0 == channel_id);
            }
            let ci = self.channel_index(channel_id);
            assert(self.jobs@[ci].0 == channel_id);
            assert forall|k: int|
                0 <= k < self.jobs@.len() && #[trigger] self.jobs@[k].0 == channel_id implies k
                == i by {
                if k < i {
                    assert(self.jobs@[k].0 != self.jobs@[i as int].0);
                } else if k > i {
                    assert(self.jobs@[i as int].0 != self.jobs@[k].0);
                }
            }
            assert(ci == i);
        }
        match &self.jobs[i].1 {
            Job::Partial(_) => {
                return Err(Error::JobNotComplete(channel_id));
            },
            Job::Complete(c) => {
                match extranonce_suffix {
                    Some(sfx) => {
                        if sfx.len() > c.extranonce.len() {
                            return Err(Error::ExtranonceTooLong(sfx.len()));
                        }
                    },
                    None => {},
                }
            },
        }
        let ghost before = *self;
        let (cid, job) = self.jobs.remove(i);
        let mut c = match job {
            Job::Complete(c) => c,
            Job::Partial(_) => {
                proof {
                    assert(false);
                }
                return Err(Error::JobNotComplete(channel_id));
            },
        };
        let ghost c0 = c;
        let res = c.validate_target(nonce, version, ntime, extranonce_suffix);
        let ghost after = c;
        let mut new_job = Job::Complete(c);
        let bitcoin = match &res {
            VelideateTargetResult::LessThanBitcoinTarget(_, _, _) => true,
            _ => false,
        };
        if bitcoin {
            new_job.make_partial();
        }
        self.jobs.insert(i, (cid, new_job));
        proof {
            assert(self.jobs@ =~= before.jobs@.update(i as int, (cid, new_job)));
            assert(before.jobs@[i as int].1 == Job::Complete(c0));
            assert(validated(c0, after, nonce, version, ntime, slice_view(extranonce_suffix), res));
            assert(self.jobs@[i as int].1 == new_job);
            assert forall|k: int|
                #![trigger self.jobs@[k]]
                0 <= k < self.jobs@.len() implies {
                &&& self.jobs@[k].1.wf()
                &&& 0 < self.jobs@[k].0 <= self.channel_ids
                &&& self.jobs@[k].1 is Complete ==> self.last_prev_hash is Some
                    && self.last_nbits is Some
            } by {
                if k != i {
                    assert(self.jobs@[k] == before.jobs@[k]);
                } else {
                    assert(before.jobs@[k].1 is Complete);
                }
            }
            assert forall|a: int, b: int|
                #![trigger self.jobs@[a].0, self.jobs@[b].0]
                0 <= a < b < self.jobs@.len() implies self.jobs@[a].0 != self.jobs@[b].0 by {
                assert(before.jobs@[a].0 != before.jobs@[b].0);
            }
        }
        Ok(res)
    }

    /// Opens an extended channel on this connection: the next channel id,
    /// a fresh extranonce prefix from `extranonces`, and a job with the
    /// requested target over the prefix padded with zero bytes to the full
    /// extranonce length. When a job is active and a previous hash is known,
    /// the channel's job is completed on them at once.
    pub fn open_extended_channel(
        &mut self,
        extranonces: &mut ExtendedExtranonce,
        request_id: u32,
        target: Vec<u8>,
    ) -> (r: Result<OpenExtendedMiningChannelSuccess, Error>)
        requires
            old(self).wf(),
            old(extranonces).wf(),
        ensures
            final(self).wf(),
            final(extranonces).wf(),
            final(self).spec_id() == old(self).spec_id(),
            final(self).sent() == old(self).sent(),
            target@.len() != 32 ==> r == Err::<OpenExtendedMiningChannelSuccess, Error>(
                Error::ExpectedLen32(target@.len() as usize),
            ),
            target@.len() == 32 && old(self).spec_channel_ids() == u32::MAX ==> r == Err::<
                OpenExtendedMiningChannelSuccess,
                Error,
            >(Error::IdOverflow),
            target@.len() == 32 && old(self).spec_channel_ids() < u32::MAX ==> (r == Err::<
                OpenExtendedMiningChannelSuccess,
                Error,
            >(Error::NoMoreExtranonces) <==> old(extranonces).issued().len() + 1 == vstd::arithmetic::power::pow(
                256,
                (old(extranonces).spec_r1_end() - old(extranonces).spec_r1_start()) as nat,
            )),
            r is Err ==> *final(self) == *old(self) && *final(extranonces) == *old(extranonces),
            target@.len() == 32 && old(self).spec_channel_ids() < u32::MAX
                && old(extranonces).issued().len() + 1 < vstd::arithmetic::power::pow(
                256,
                (old(extranonces).spec_r1_end() - old(extranonces).spec_r1_start()) as nat,
            ) ==> r is Ok,
            r is Ok ==> opened_channel(
                old(self),
                final(self),
                old(extranonces),
                final(extranonces),
                request_id,
                target@,
                r->Ok_0,
            ),
    {
        if target.len() != 32 {
            return Err(Error::ExpectedLen32(target.len()));
        }
        if self.channel_ids == u32::MAX {
            return Err(Error::IdOverflow);
        }
        let prefix = match extranonces.next_prefix() {
            Ok(p) => p,
            Err(e) => {
                return Err(e);
            },
        };
        let channel_id = self.channel_ids + 1;
        let total = extranonces.extranonce_len();
        proof {
            extranonces.lemma_ranges();
        }
        let mut extranonce = copy_bytes(&prefix);
        let mut k: usize = prefix.len();
        while k < total
            invariant
                prefix@.len() <= k <= total,
                extranonce@ == prefix@ + repeat(0, (k - prefix@.len()) as nat),
            decreases total - k,
        {
            extranonce.push(0);
            assert(extranonce@ =~= prefix@ + repeat(0, (k + 1 - prefix@.len()) as nat));
            k = k + 1;
        }
        let mut job = Job::new(copy_bytes(&target), extranonce);
        let ghost lv_known = self.last_valid_extended_job is Some && self.last_prev_hash is Some;
        match (&self.last_valid_extended_job, &self.last_prev_hash, self.last_nbits) {
            (Some(lv), Some(prev), Some(nbits)) => {
                job.update_job(&lv.0, nbits, prev, lv.1);
            },
            _ => {},
        }
        let success = OpenExtendedMiningChannelSuccess {
            request_id,
            channel_id,
            target,
            extranonce_size: (total - prefix.len()) as u16,
            extranonce_prefix: copy_bytes(&prefix),
        };
        let ghost before = *self;
        self.channel_ids = channel_id;
        self.jobs.push((channel_id, job));
        self.prefixes.push((channel_id, prefix));
        proof {
            assert(self.jobs@.drop_last() =~= before.jobs@);
            assert forall|k: int|
                #![trigger self.jobs@[k]]
                0 <= k < self.jobs@.len() implies {
                &&& self.jobs@[k].1.wf()
                &&& 0 < self.jobs@[k].0 <= self.channel_ids
                &&& self.jobs@[k].1 is Complete ==> self.last_prev_hash is Some
                    && self.last_nbits is Some
            } by {
                if k < before.jobs@.len() {
                    assert(self.jobs@[k] == before.jobs@[k]);
                }
            }
            assert forall|a: int, b: int|
                #![trigger self.jobs@[a].0, self.jobs@[b].0]
                0 <= a < b < self.jobs@.len() implies self.jobs@[a].0 != self.jobs@[b].0 by {
                assert(self.jobs@[a] == before.jobs@[a]);
                if b < before.jobs@.len() {
                    assert(self.jobs@[b] == before.jobs@[b]);
                }
            }
        }
        Ok(success)
    }

    /// The state of a new connection with group id `id`, seeded with the
    /// extended jobs that the job creator made for it (each with its
    /// template id), and the messages to send first: every job, in order,
    /// then the previous hash, when one is already known. Refused when that
    /// hash is not 32 bytes long.
    pub fn new(
        id: u32,
        extended_jobs: Vec<(NewExtendedMiningJob, u64)>,
        last_new_prev_hash: Option<SetNewPrevHash>,
    ) -> (r: Result<(Downstream, Vec<Mining>), Error>)
        ensures
            (r is Err) == (last_new_prev_hash is Some
                && last_new_prev_hash->Some_0.prev_hash@.len() != 32),
            r is Ok ==> {
                let (d, out) = r->Ok_0;
                &&& d.wf()
                &&& d.spec_id() == id
                &&& d.spec_jobs().len() == 0
                &&& d.spec_channel_ids() == 0
                &&& out.len() == extended_jobs@.len() + if last_new_prev_hash is Some {
                    1int
                } else {
                    0int
                }
                &&& forall|k: int|
                    #![trigger out@[k]]
                    0 <= k < extended_jobs@.len() ==> out@[k] is NewExtendedMiningJob
                        && out@[k]->NewExtendedMiningJob_0.same_as(&extended_jobs@[k].0)
                &&& d.spec_prefixes().len() == 0
                &&& last_new_prev_hash is None ==> seeded(d, extended_jobs@, extended_jobs@.len() as int)
                    && d.spec_last_prev_hash() is None && d.spec_last_nbits() is None
                &&& last_new_prev_hash is Some ==> {
                    &&& out@.last() == Mining::SetNewPrevHash(last_new_prev_hash->Some_0)
                    &&& d.spec_future_jobs().len() == 0
                    &&& d.spec_last_prev_hash() == Some(last_new_prev_hash->Some_0.prev_hash@)
                    &&& d.spec_last_nbits() == Some(last_new_prev_hash->Some_0.nbits)
                }
            },
    {
        if let Some(m) = &last_new_prev_hash {
            if m.prev_hash.len() != 32 {
                return Err(Error::ExpectedLen32(m.prev_hash.len()));
            }
        }
        let mut d = Downstream {
            id,
            channel_ids: 0,
            jobs: Vec::new(),
            future_jobs: Vec::new(),
            prefixes: Vec::new(),
            last_prev_hash: None,
            last_nbits: None,
            last_valid_extended_job: None,
            sent: Ghost(Seq::empty()),
        };
        let mut out: Vec<Mining> = Vec::new();
        let mut i: usize = 0;
        while i < extended_jobs.len()
            invariant
                d.wf(),
                d.id == id,
                d.jobs@.len() == 0,
                d.channel_ids == 0,
                i <= extended_jobs@.len(),
                out@.len() == i,
                forall|k: int|
                    #![trigger out@[k]]
                    0 <= k < i ==> out@[k] is NewExtendedMiningJob
                        && out@[k]->NewExtendedMiningJob_0.same_as(&extended_jobs@[k].0),
                d.prefixes@.len() == 0,
                d.last_prev_hash is None,
                d.last_nbits is None,
                seeded(d, extended_jobs@, i as int),
            decreases extended_jobs@.len() - i,
        {
            let job = extended_jobs[i].0.copy();
            let template_id = extended_jobs[i].1;
            let ghost d0 = d;
            let ghost e = extended_jobs@[i as int];
            match d.on_new_extended_job(job, template_id) {
                Ok(sent) => {
                    proof {
                        lemma_seeded_step(d0, d, extended_jobs@, i as int, sent);
                    }
                    out.push(Mining::NewExtendedMiningJob(sent));
                },
                Err(_) => {
                    proof {
                        assert(false);
                    }
                },
            }
            i = i + 1;
        }
        match last_new_prev_hash {
            Some(m) => {
                match d.on_new_prev_hash_sync(m) {
                    Ok(sent) => {
                        out.push(Mining::SetNewPrevHash(sent));
                    },
                    Err(e) => {
                        return Err(e);
                    },
                }
            },
            None => {},
        }
        Ok((d, out))
    }

    /// Number of open channels.
    pub fn channel_count(&self) -> (r: usize)
        ensures
            r == self.spec_jobs().len(),
    {
        self.jobs.len()
    }

    /// Number of future jobs waiting for a previous hash.
    pub fn future_jobs_len(&self) -> (r: usize)
        ensures
            r == self.spec_future_jobs().len(),
    {
        self.future_jobs.len()
    }

    /// The job of the channel with this id, if open.
    pub fn job_of(&self, channel_id: u32) -> (r: Option<&Job>)
        ensures
            r is None == !self.has_channel(channel_id),
            r is Some ==> exists|i: int|
                0 <= i < self.spec_jobs().len() && #[trigger] self.spec_jobs()[i] == (
                    channel_id,
                    *r->Some_0,
                ),
    {
        match self.find_channel(channel_id) {
            Some(i) => {
                assert(self.spec_jobs()[i as int] == (channel_id, self.jobs@[i as int].1));
                Some(&self.jobs[i].1)
            },
            None => None,
        }
    }

    /// The last previous hash taken in, if any.
    pub fn last_prev_hash(&self) -> (r: Option<Vec<u8>>)
        ensures
            r is None == self.spec_last_prev_hash() is None,
            r is Some ==> self.spec_last_prev_hash() == Some(r->Some_0@),
    {
        match &self.last_prev_hash {
            Some(h) => Some(copy_bytes(h)),
            None => None,
        }
    }

    /// The last compact target taken in, if any.
    pub fn last_nbits(&self) -> (r: Option<u32>)
        ensures
            r == self.spec_last_nbits(),
    {
        self.last_nbits
    }

    /// Answers a share submission: `SubmitSharesSuccess` when the share
    /// meets the downstream or the network target (with the solution to
    /// hand to the template provider in the second case), and
    /// `SubmitSharesError` otherwise, with the reason.
    pub fn handle_submit_shares_extended(&mut self, m: &SubmitSharesExtended) -> (r: (
        Mining,
        Option<SubmitSolution>,
    ))
        requires
            old(self).wf(),
        ensures
            final(self).wf(),
            final(self).spec_id() == old(self).spec_id(),
            final(self).sent() == old(self).sent(),
            final(self).spec_future_jobs() == old(self).spec_future_jobs(),
            !old(self).has_channel(m.channel_id) ==> final(self).spec_jobs() == old(
                self,
            ).spec_jobs() && r.1 is None && r.0 == Mining::SubmitSharesError(
                SubmitSharesError {
                    channel_id: m.channel_id,
                    sequence_number: m.sequence_number,
                    error_code: ShareErrorCode::InvalidChannelId,
                },
            ),
            old(self).has_channel(m.channel_id) ==> exists|res: Result<VelideateTargetResult, Error>|
                #[trigger] share_outcome(
                    old(self).spec_jobs(),
                    final(self).spec_jobs(),
                    old(self).channel_index(m.channel_id),
                    m.nonce,
                    m.version,
                    m.ntime,
                    Some(m.extranonce@),
                    res,
                ) && reply_for(m.channel_id, m.sequence_number, res, r),
    {
        let res = self.check_target(
            m.channel_id,
            m.nonce,
            m.version,
            m.ntime,
            Some(m.extranonce.as_slice()),
        );
        let ghost res0 = res;
        let reply = match res {
            Ok(VelideateTargetResult::LessThanBitcoinTarget(_, n, solution)) => (
                Mining::SubmitSharesSuccess(
                    SubmitSharesSuccess {
                        channel_id: m.channel_id,
                        last_sequence_number: m.sequence_number,
                        new_submits_accepted_count: 1,
                        new_shares_sum: n,
                    },
                ),
                Some(solution),
            ),
            Ok(VelideateTargetResult::LessThanDownstreamTarget(_, n)) => (
                Mining::SubmitSharesSuccess(
                    SubmitSharesSuccess {
                        channel_id: m.channel_id,
                        last_sequence_number: m.sequence_number,
                        new_submits_accepted_count: 1,
                        new_shares_sum: n,
                    },
                ),
                None,
            ),
            Ok(VelideateTargetResult::Invalid(_)) => (
                Mining::SubmitSharesError(
                    SubmitSharesError {
                        channel_id: m.channel_id,
                        sequence_number: m.sequence_number,
                        error_code: ShareErrorCode::DifficultyTooLow,
                    },
                ),
                None,
            ),
            Err(e) => {
                let error_code = match e {
                    Error::JobNotComplete(_) => ShareErrorCode::StaleShare,
                    Error::ExtranonceTooLong(_) => ShareErrorCode::InvalidExtranonce,
                    _ => ShareErrorCode::InvalidChannelId,
                };
                (
                    Mining::SubmitSharesError(
                        SubmitSharesError {
                            channel_id: m.channel_id,
                            sequence_number: m.sequence_number,
                            error_code,
                        },
                    ),
                    None,
                )
            },
        };
        proof {
            assert(reply_for(m.channel_id, m.sequence_number, res0, reply));
        }
        reply
    }
}

/// The answer to a share submission whose check gave `res`.
pub open spec fn reply_for(
    channel_id: u32,
    sequence_number: u32,
    res: Result<VelideateTargetResult, Error>,
    r: (Mining, Option<SubmitSolution>),
) -> bool {
    let refuse = |code: ShareErrorCode|
        r.0 == Mining::SubmitSharesError(
            SubmitSharesError { channel_id, sequence_number, error_code: code },
        ) && r.1 is None;
    let accept = |n: u64|
        r.0 == Mining::SubmitSharesSuccess(
            SubmitSharesSuccess {
                channel_id,
                last_sequence_number: sequence_number,
                new_submits_accepted_count: 1,
                new_shares_sum: n,
            },
        );
    match res {
        Ok(VelideateTargetResult::LessThanBitcoinTarget(_, n, sol)) => accept(n) && r.1 == Some(
            sol,
        ),
        Ok(VelideateTargetResult::LessThanDownstreamTarget(_, n)) => accept(n) && r.1 is None,
        Ok(VelideateTargetResult::Invalid(_)) => refuse(ShareErrorCode::DifficultyTooLow),
        Err(Error::JobNotComplete(_)) => refuse(ShareErrorCode::StaleShare),
        Err(Error::ExtranonceTooLong(_)) => refuse(ShareErrorCode::InvalidExtranonce),
        Err(_) => refuse(ShareErrorCode::InvalidChannelId),
    }
}

/// Index of the last job of `jobs` that is not a future job, if any.
pub open spec fn last_active(jobs: Seq<(NewExtendedMiningJob, u64)>) -> Option<int>
    decreases jobs.len(),
{
    if jobs.len() == 0 {
        None
    } else if !jobs.last().0.future_job {
        Some(jobs.len() - 1)
    } else {
        last_active(jobs.drop_last())
    }
}

/// `d` holds what the first `n` jobs of `jobs` leave behind: each future
/// job among them waits, no other job waits, and the active job is the
/// last of them that is not a future job.
pub open spec fn seeded(d: Downstream, jobs: Seq<(NewExtendedMiningJob, u64)>, n: int) -> bool {
    &&& forall|k: int|
        0 <= k < n && (#[trigger] jobs[k]).0.future_job ==> d.has_future(jobs[k].0.job_id)
    &&& forall|j: u32|
        #[trigger] d.has_future(j) ==> exists|k: int|
            0 <= k < n && (#[trigger] jobs[k]).0.future_job && jobs[k].0.job_id == j
    &&& match last_active(jobs.take(n)) {
        None => d.spec_last_valid_extended_job() is None,
        Some(k) => {
            &&& d.spec_last_valid_extended_job() is Some
            &&& d.spec_last_valid_extended_job()->Some_0.0.same_as(&jobs[k].0)
            &&& d.spec_last_valid_extended_job()->Some_0.1 == jobs[k].1
        },
    }
}

proof fn lemma_seeded_step(
    d0: Downstream,
    d: Downstream,
    jobs: Seq<(NewExtendedMiningJob, u64)>,
    i: int,
    sent: NewExtendedMiningJob,
)
    requires
        0 <= i < jobs.len(),
        seeded(d0, jobs, i),
        sent.same_as(&jobs[i].0),
        d0.took_extended_job(&d, sent, jobs[i].1),
    ensures
        seeded(d, jobs, i + 1),
{
    assert(jobs.take(i + 1).drop_last() =~= jobs.take(i));
    assert(jobs.take(i + 1).last() == jobs[i]);
    let e = jobs[i].0;
    assert forall|k: int|
        0 <= k < i + 1 && (#[trigger] jobs[k]).0.future_job implies d.has_future(
        jobs[k].0.job_id,
    ) by {
        if k < i && jobs[k].0.job_id != e.job_id && e.future_job {
            assert(d0.has_future(jobs[k].0.job_id));
        } else if k < i && !e.future_job {
            assert(d0.has_future(jobs[k].0.job_id));
            let w = choose|w: int|
                0 <= w < d0.spec_future_jobs().len()
                    && #[trigger] d0.spec_future_jobs()[w].0.job_id == jobs[k].0.job_id;
            assert(d.spec_future_jobs()[w].0.job_id == jobs[k].0.job_id);
        }
    }
    assert forall|j: u32| #[trigger] d.has_future(j) implies exists|k: int|
        0 <= k < i + 1 && (#[trigger] jobs[k]).0.future_job && jobs[k].0.job_id == j by {
        if e.future_job && j == e.job_id {
            assert(jobs[i].0.future_job && jobs[i].0.job_id == j);
        } else if e.future_job {
            assert(d0.has_future(j));
        } else {
            let w = choose|w: int|
                0 <= w < d.spec_future_jobs().len()
                    && #[trigger] d.spec_future_jobs()[w].0.job_id == j;
            assert(d0.spec_future_jobs()[w].0.job_id == j);
            assert(d0.has_future(j));
        }
    }
}

/// Taking in one of two jobs that hold the same values leaves the same
/// state.
pub proof fn lemma_took_extended_job_same(
    before: &Downstream,
    after: &Downstream,
    a: NewExtendedMiningJob,
    b: NewExtendedMiningJob,
    template_id: u64,
)
    requires
        a.same_as(&b),
        before.took_extended_job(after, a, template_id),
    ensures
        before.took_extended_job(after, b, template_id),
{
    if a.future_job {
        let f = choose|f: int|
            0 <= f < after.spec_future_jobs().len()
                && #[trigger] after.spec_future_jobs()[f].0.same_as(&a)
                && after.spec_future_jobs()[f].1 == template_id;
        assert(after.spec_future_jobs()[f].0.same_as(&b));
    }
    if !a.future_job {
        assert forall|i: int|
            #![trigger after.spec_jobs()[i]]
            0 <= i < after.spec_jobs().len() implies {
            &&& after.spec_jobs()[i].0 == before.spec_jobs()[i].0
            &&& after.spec_jobs()[i].1 is Complete
            &&& after.spec_jobs()[i].1->Complete_0.built_from(
                before.spec_jobs()[i].1.target_view(),
                before.spec_jobs()[i].1.extranonce_view(),
                b,
                before.spec_last_nbits()->Some_0,
                before.spec_last_prev_hash()->Some_0,
                template_id,
            )
        } by {
            assert(after.spec_jobs()[i].1->Complete_0.built_from(
                before.spec_jobs()[i].1.target_view(),
                before.spec_jobs()[i].1.extranonce_view(),
                a,
                before.spec_last_nbits()->Some_0,
                before.spec_last_prev_hash()->Some_0,
                template_id,
            ));
        }
    }
}

/// `after` and `ext_after` are `before` and `ext_before` once a channel has
/// been opened for request `request_id` with `target`, as `s` announces.
pub open spec fn opened_channel(
    before: &Downstream,
    after: &Downstream,
    ext_before: &ExtendedExtranonce,
    ext_after: &ExtendedExtranonce,
    request_id: u32,
    target: Seq<u8>,
    s_ok: OpenExtendedMiningChannelSuccess,
) -> bool {
    let cid = (before.spec_channel_ids() + 1) as u32;
    let prefix = s_ok.extranonce_prefix@;
    let ext = prefix + repeat(0, (ext_before.spec_r2_end() - ext_before.spec_r1_end()) as nat);
    let job = after.spec_jobs().last();
    &&& after.wf()
    &&& ext_after.wf()
    &&& after.spec_id() == before.spec_id()
    &&& after.sent() == before.sent()
    &&& target.len() == 32
    &&& s_ok.request_id == request_id
    &&& s_ok.channel_id == cid
    &&& s_ok.target@ == target
    &&& s_ok.extranonce_size == ext_before.spec_r2_end() - ext_before.spec_r1_end()
    &&& ext_after.issued() == ext_before.issued().push(prefix)
    &&& ext_after.spec_r1_start() == ext_before.spec_r1_start()
    &&& ext_after.spec_r1_end() == ext_before.spec_r1_end()
    &&& ext_after.spec_r2_end() == ext_before.spec_r2_end()
    &&& prefix.len() == ext_before.spec_r1_end()
    &&& counter_of(
        prefix,
        ext_before.spec_r1_start() as int,
        ext_before.spec_r1_end() as int,
    ) == ext_before.issued().len() + 1
    &&& after.spec_channel_ids() == cid
    &&& after.spec_jobs().drop_last() == before.spec_jobs()
    &&& job.0 == cid
    &&& after.spec_prefixes() == before.spec_prefixes().push(
        (cid, after.spec_prefixes().last().1),
    )
    &&& after.spec_prefixes().last().1@ == prefix
    &&& after.spec_future_jobs() == before.spec_future_jobs()
    &&& after.spec_last_prev_hash() == before.spec_last_prev_hash()
    &&& after.spec_last_nbits() == before.spec_last_nbits()
    &&& after.spec_last_valid_extended_job()
        == before.spec_last_valid_extended_job()
    &&& if before.spec_last_valid_extended_job() is Some
        && before.spec_last_prev_hash() is Some {
        let (lv, tid) = before.spec_last_valid_extended_job()->Some_0;
        &&& job.1 is Complete
        &&& job.1->Complete_0.built_from(
            target,
            ext,
            lv,
            before.spec_last_nbits()->Some_0,
            before.spec_last_prev_hash()->Some_0,
            tid,
        )
    } else {
        job.1.is_partial_of(target, ext)
    }
}

/// Every previous hash handed out for sending that made a future job
/// active comes after that job was handed out as a future job on the same
/// connection.
pub proof fn lemma_activation_follows_future_job(d: &Downstream, i: int)
    requires
        d.wf(),
        0 <= i < d.sent().len(),
        d.sent()[i] matches Announcement::PrevHash { activating: true, .. },
    ensures
        exists|k: int|
            0 <= k < i && #[trigger] d.sent()[k] == (Announcement::Job {
                job_id: d.sent()[i]->PrevHash_job_id,
                future: true,
            }),
{
    assert(d.sent()[i] == d.sent@[i]);
}

} // verus!
