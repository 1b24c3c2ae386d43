//! The pool: registry of downstreams, id and extranonce generators, and the
//! fan-out of templates and previous hashes, ordered by a barrier so that a
//! previous hash goes out only after the jobs of the template before it.
use vstd::prelude::*;

verus! {

use crate::downstream::{
    opened_channel,
    lemma_took_extended_job_same,
    reply_for,
    share_outcome,
    Downstream,
    SetNewPrevHash,
};
use crate::job::{SubmitSolution, VelideateTargetResult};
use crate::messages::{OpenExtendedMiningChannelSuccess, SubmitSharesExtended};
use crate::errors::Error;
use crate::extranonce::ExtendedExtranonce;
use crate::job::{copy_bytes, NewExtendedMiningJob};
use crate::messages::Mining;

/// A new previous block hash from the template provider.
pub struct TemplatePrevHash {
    pub template_id: u64,
    /// 32 bytes in internal order.
    pub prev_hash: Vec<u8>,
    pub header_timestamp: u32,
    pub n_bits: u32,
}

impl TemplatePrevHash {
    /// A copy of the message.
    pub fn copy(&self) -> (r: TemplatePrevHash)
        ensures
            r.template_id == self.template_id,
            r.prev_hash@ == self.prev_hash@,
            r.header_timestamp == self.header_timestamp,
            r.n_bits == self.n_bits,
    {
        TemplatePrevHash {
            template_id: self.template_id,
            prev_hash: copy_bytes(&self.prev_hash),
            header_timestamp: self.header_timestamp,
            n_bits: self.n_bits,
        }
    }
}

/// What the previous-hash task does next.
pub enum PrevHashStep {
    /// The jobs of the last template are not all out yet: wait, then ask again.
    Wait,
    /// Send each message to the downstream with the given id, in order.
    Send(Vec<(u32, Mining)>),
}

/// What a template does to downstream `before`: it takes in the first job
/// that `jobs` gives for its group id, unless it refuses it or there is
/// none.
#[verifier::opaque]
pub open spec fn template_step(
    before: Downstream,
    after: Downstream,
    jobs: Seq<(u32, NewExtendedMiningJob)>,
    template_id: u64,
) -> bool {
    match job_for(jobs, before.spec_id()) {
        None => after == before,
        Some(j) => if before.refuses_extended_job(j) {
            after == before
        } else {
            before.took_extended_job(&after, j, template_id)
        },
    }
}

/// What a previous hash does to downstream `before`: it takes the hash in
/// for the first job id that `job_ids` gives for its group id, if any.
#[verifier::opaque]
pub open spec fn prev_hash_step(
    before: Downstream,
    after: Downstream,
    job_ids: Seq<(u32, u32)>,
    prev_hash: Seq<u8>,
    nbits: u32,
) -> bool {
    match job_id_for(job_ids, before.spec_id()) {
        None => after == before,
        Some(job_id) => before.took_prev_hash(&after, job_id, prev_hash, nbits),
    }
}

/// A fan-out of the pool to all its downstreams.
pub enum FanOut {
    Template,
    PrevHash,
}

/// Each previous-hash fan-out comes right after a template fan-out.
pub open spec fn prev_hashes_follow_templates(log: Seq<FanOut>) -> bool {
    forall|i: int|
        #![trigger log[i]]
        0 <= i < log.len() && log[i] is PrevHash ==> i > 0 && log[i - 1] is Template
}

/// The group ids, in registry order, of the downstreams of `ds` that take
/// in a job from `jobs`: those that have one and do not refuse it.
pub open spec fn template_receivers(ds: Seq<Downstream>, jobs: Seq<(u32, NewExtendedMiningJob)>) -> Seq<
    u32,
>
    decreases ds.len(),
{
    if ds.len() == 0 {
        Seq::empty()
    } else {
        let d = ds.last();
        let rest = template_receivers(ds.drop_last(), jobs);
        match job_for(jobs, d.spec_id()) {
            Some(j) => if d.refuses_extended_job(j) {
                rest
            } else {
                rest.push(d.spec_id())
            },
            None => rest,
        }
    }
}

/// The group ids, in registry order, of the downstreams of `ds` that
/// `job_ids` gives a job id for.
pub open spec fn prev_hash_receivers(ds: Seq<Downstream>, job_ids: Seq<(u32, u32)>) -> Seq<u32>
    decreases ds.len(),
{
    if ds.len() == 0 {
        Seq::empty()
    } else {
        let rest = prev_hash_receivers(ds.drop_last(), job_ids);
        if job_id_for(job_ids, ds.last().spec_id()) is Some {
            rest.push(ds.last().spec_id())
        } else {
            rest
        }
    }
}

/// Accepts downstreams and fans work out to them.
pub struct Pool {
    group_downstreams: Vec<Downstream>,
    /// The last group id handed out.
    group_ids: u32,
    last_new_prev_hash: Option<TemplatePrevHash>,
    extranonces: ExtendedExtranonce,
    /// Set when a template has been fanned out and no previous hash has
    /// been fanned out since.
    new_template_processed: bool,
    /// The fan-outs done so far, in order.
    fanouts: Ghost<Seq<FanOut>>,
}

impl Pool {
    pub closed spec fn spec_downstreams(&self) -> Seq<Downstream> {
        self.group_downstreams@
    }

    pub closed spec fn spec_new_template_processed(&self) -> bool {
        self.new_template_processed
    }

    pub closed spec fn spec_group_ids(&self) -> u32 {
        self.group_ids
    }

    pub closed spec fn spec_extranonces(&self) -> ExtendedExtranonce {
        self.extranonces
    }

    pub closed spec fn spec_last_prev_hash(&self) -> Option<Seq<u8>> {
        match self.last_new_prev_hash {
            None => None,
            Some(p) => Some(p.prev_hash@),
        }
    }

    /// The fan-outs done so far, oldest first.
    pub closed spec fn fanouts(&self) -> Seq<FanOut> {
        self.fanouts@
    }

    pub closed spec fn wf(&self) -> bool {
        &&& prev_hashes_follow_templates(self.fanouts@)
        &&& self.new_template_processed == (self.fanouts@.len() > 0
            && self.fanouts@.last() is Template)
        &&& self.extranonces.wf()
        &&& forall|i: int|
            #![trigger self.group_downstreams@[i]]
            0 <= i < self.group_downstreams@.len() ==> self.group_downstreams@[i].wf()
                && 0 < self.group_downstreams@[i].spec_id() <= self.group_ids
        &&& forall|i: int, j: int|
            #![trigger self.group_downstreams@[i].spec_id(), self.group_downstreams@[j].spec_id()]
            0 <= i < j < self.group_downstreams@.len() ==> self.group_downstreams@[i].spec_id()
                != self.group_downstreams@[j].spec_id()
        &&& self.last_new_prev_hash is Some ==> self.last_new_prev_hash->Some_0.prev_hash@.len()
            == 32
    }

    /// What a well-formed pool guarantees: its extranonce generator and
    /// downstreams are well formed, and group ids are positive and distinct.
    pub proof fn lemma_wf(&self)
        requires
            self.wf(),
        ensures
            self.spec_extranonces().wf(),
            forall|i: int|
                #![trigger self.spec_downstreams()[i]]
                0 <= i < self.spec_downstreams().len() ==> self.spec_downstreams()[i].wf()
                    && 0 < self.spec_downstreams()[i].spec_id(),
            forall|i: int, j: int|
                0 <= i < j < self.spec_downstreams().len() ==> #[trigger] self.spec_downstreams()[i].spec_id()
                    != #[trigger] self.spec_downstreams()[j].spec_id(),
    {
    }

    /// A pool with no downstream yet, whose extranonce field gives the
    /// first 16 bytes to the channels and the last 16 to the miners.
    pub fn new() -> (r: Pool)
        ensures
            r.wf(),
            r.spec_downstreams().len() == 0,
            !r.spec_new_template_processed(),
            r.spec_last_prev_hash() is None,
            r.fanouts().len() == 0,
            r.spec_extranonces().spec_r1_start() == 0,
            r.spec_extranonces().spec_r1_end() == 16,
            r.spec_extranonces().spec_r2_end() == 32,
    {
        Pool {
            group_downstreams: Vec::new(),
            group_ids: 0,
            last_new_prev_hash: None,
            extranonces: ExtendedExtranonce::new(0..0, 0..16, 16..32),
            new_template_processed: false,
            fanouts: Ghost(Seq::empty()),
        }
    }

    /// Number of registered downstreams.
    pub fn downstream_count(&self) -> (r: usize)
        ensures
            r == self.spec_downstreams().len(),
    {
        self.group_downstreams.len()
    }

    /// Whether the last template has been fanned out and no previous hash
    /// has followed it yet.
    pub fn new_template_processed(&self) -> (r: bool)
        ensures
            r == self.spec_new_template_processed(),
    {
        self.new_template_processed
    }

    /// The group id of the next downstream to register.
    pub fn next_group_id(&self) -> (r: Result<u32, Error>)
        ensures
            self.spec_group_ids() == u32::MAX ==> r == Err::<u32, Error>(Error::IdOverflow),
            self.spec_group_ids() < u32::MAX ==> r == Ok::<u32, Error>(
                (self.spec_group_ids() + 1) as u32,
            ),
    {
        if self.group_ids == u32::MAX {
            Err(Error::IdOverflow)
        } else {
            Ok(self.group_ids + 1)
        }
    }

    /// The template id of the last previous hash, if any: the job creator
    /// maps it to the job id that a new downstream must see activated.
    pub fn last_prev_hash_template_id(&self) -> (r: Option<u64>)
        ensures
            r is Some == self.spec_last_prev_hash() is Some,
    {
        match &self.last_new_prev_hash {
            Some(p) => Some(p.template_id),
            None => None,
        }
    }

    /// Registers a new downstream under the next group id, seeded with the
    /// extended jobs that the job creator made for it. `job_id` is the job
    /// that the last previous hash activates for it, when a previous hash is
    /// known; the messages to send it first are returned with its id. A
    /// downstream that asked for header-only (standard) channels is refused.
    pub fn add_downstream(
        &mut self,
        header_only: bool,
        extended_jobs: Vec<(NewExtendedMiningJob, u64)>,
        job_id: u32,
    ) -> (r: Result<(u32, Vec<Mining>), Error>)
        requires
            old(self).wf(),
        ensures
            final(self).wf(),
            final(self).spec_new_template_processed() == old(self).spec_new_template_processed(),
            final(self).fanouts() == old(self).fanouts(),
            final(self).spec_last_prev_hash() == old(self).spec_last_prev_hash(),
            header_only ==> r == Err::<(u32, Vec<Mining>), Error>(
                Error::StandardChannelNotSupported,
            ),
            !header_only && old(self).spec_group_ids() == u32::MAX ==> r == Err::<
                (u32, Vec<Mining>),
                Error,
            >(Error::IdOverflow),
            r is Err ==> *final(self) == *old(self),
            !header_only && old(self).spec_group_ids() < u32::MAX ==> r is Ok,
            r is Ok ==> {
                let (id, out) = r->Ok_0;
                &&& id == old(self).spec_group_ids() + 1
                &&& final(self).spec_downstreams().len() == old(self).spec_downstreams().len() + 1
                &&& final(self).spec_downstreams().drop_last() == old(self).spec_downstreams()
                &&& final(self).spec_downstreams().last().spec_id() == id
                &&& out.len() == extended_jobs@.len() + if old(self).spec_last_prev_hash() is Some {
                    1int
                } else {
                    0int
                }
                &&& old(self).spec_last_prev_hash() is Some ==> out@.last() is SetNewPrevHash
                    && out@.last()->SetNewPrevHash_0.job_id == job_id
                    && out@.last()->SetNewPrevHash_0.channel_id == id
                    && out@.last()->SetNewPrevHash_0.prev_hash@
                    == old(self).spec_last_prev_hash()->Some_0
            },
    {
        if header_only {
            return Err(Error::StandardChannelNotSupported);
        }
        if self.group_ids == u32::MAX {
            return Err(Error::IdOverflow);
        }
        let id = self.group_ids + 1;
        let message = match &self.last_new_prev_hash {
            Some(p) => Some(
                SetNewPrevHash {
                    channel_id: id,
                    job_id,
                    prev_hash: copy_bytes(&p.prev_hash),
                    min_ntime: 0,
                    nbits: p.n_bits,
                },
            ),
            None => None,
        };
        match Downstream::new(id, extended_jobs, message) {
            Ok((d, out)) => {
                let ghost before = *self;
                self.group_ids = id;
                self.group_downstreams.push(d);
                proof {
                    assert(self.group_downstreams@.drop_last() =~= before.group_downstreams@);
                    assert forall|i: int|
                        #![trigger self.group_downstreams@[i]]
                        0 <= i < self.group_downstreams@.len() implies self.group_downstreams@[i].wf()
                        && 0 < self.group_downstreams@[i].spec_id() <= self.group_ids by {
                        if i < before.group_downstreams@.len() {
                            assert(self.group_downstreams@[i] == before.group_downstreams@[i]);
                        }
                    }
                    assert forall|i: int, j: int|
                        #![trigger self.group_downstreams@[i].spec_id(), self.group_downstreams@[j].spec_id()]
                        0 <= i < j < self.group_downstreams@.len() implies self.group_downstreams@[i].spec_id()
                        != self.group_downstreams@[j].spec_id() by {
                        assert(self.group_downstreams@[i] == before.group_downstreams@[i]);
                        if j < before.group_downstreams@.len() {
                            assert(self.group_downstreams@[j] == before.group_downstreams@[j]);
                        }
                    }
                }
                Ok((id, out))
            },
            Err(e) => {
                proof {
                    assert(false);
                }
                Err(e)
            },
        }
    }

    /// Drops the downstream with this id, when its connection has closed.
    /// Returns whether it was registered.
    pub fn remove_downstream(&mut self, id: u32) -> (r: bool)
        requires
            old(self).wf(),
        ensures
            final(self).wf(),
            r == exists|i: int|
                0 <= i < old(self).spec_downstreams().len()
                    && #[trigger] old(self).spec_downstreams()[i].spec_id() == id,
            forall|i: int|
                0 <= i < final(self).spec_downstreams().len()
                    ==> #[trigger] final(self).spec_downstreams()[i].spec_id() != id,
            r ==> final(self).spec_downstreams() == old(self).spec_downstreams().remove(
                old(self).downstream_index(id),
            ),
            !r ==> *final(self) == *old(self),
            final(self).spec_new_template_processed() == old(self).spec_new_template_processed(),
            final(self).fanouts() == old(self).fanouts(),
    {
        let mut i: usize = 0;
        while i < self.group_downstreams.len()
            invariant
                *self == *old(self),
                self.wf(),
                i <= self.group_downstreams@.len(),
                forall|k: int|
                    0 <= k < i ==> #[trigger] self.group_downstreams@[k].spec_id() != id,
            decreases self.group_downstreams@.len() - i,
        {
            if self.group_downstreams[i].id() == id {
                let ghost before = *self;
                let _ = self.group_downstreams.remove(i);
                proof {
                    assert(before.group_downstreams@[i as int].spec_id() == id);
                    assert(old(self).spec_downstreams()[i as int].spec_id() == id);
                    let j = old(self).downstream_index(id);
                    if j != i {
                        if j < i {
                            assert(before.group_downstreams@[j].spec_id()
                                != before.group_downstreams@[i as int].spec_id());
                        } else {
                            assert(before.group_downstreams@[i as int].spec_id()
                                != before.group_downstreams@[j].spec_id());
                        }
                    }
                    assert(self.group_downstreams@ =~= before.group_downstreams@.remove(i as int));
                    assert forall|k: int|
                        0 <= k < self.group_downstreams@.len() implies #[trigger] self.group_downstreams@[k].spec_id()
                        != id by {
                        if k < i {
                            assert(self.group_downstreams@[k] == before.group_downstreams@[k]);
                        } else {
                            assert(self.group_downstreams@[k] == before.group_downstreams@[k + 1]);
                            assert(before.group_downstreams@[i as int].spec_id()
                                != before.group_downstreams@[k + 1].spec_id());
                        }
                    }
                    assert forall|a: int|
                        #![trigger self.group_downstreams@[a]]
                        0 <= a < self.group_downstreams@.len() implies self.group_downstreams@[a].wf()
                        && 0 < self.group_downstreams@[a].spec_id() <= self.group_ids by {
                        if a < i {
                            assert(self.group_downstreams@[a] == before.group_downstreams@[a]);
                        } else {
                            assert(self.group_downstreams@[a] == before.group_downstreams@[a + 1]);
                        }
                    }
                    assert forall|a: int, b: int|
                        #![trigger self.group_downstreams@[a].spec_id(), self.group_downstreams@[b].spec_id()]
                        0 <= a < b < self.group_downstreams@.len() implies self.group_downstreams@[a].spec_id()
                        != self.group_downstreams@[b].spec_id() by {
                        let a2 = if a < i { a } else { a + 1 };
                        let b2 = if b < i { b } else { b + 1 };
                        assert(self.group_downstreams@[a] == before.group_downstreams@[a2]);
                        assert(self.group_downstreams@[b] == before.group_downstreams@[b2]);
                        assert(before.group_downstreams@[a2].spec_id()
                            != before.group_downstreams@[b2].spec_id());
                    }
                }
                return true;
            }
            i = i + 1;
        }
        proof {
            assert(!exists|k: int|
                0 <= k < old(self).spec_downstreams().len()
                    && #[trigger] old(self).spec_downstreams()[k].spec_id() == id);
        }
        false
    }

    /// A downstream is registered under this group id.
    pub open spec fn has_downstream(&self, id: u32) -> bool {
        exists|i: int|
            0 <= i < self.spec_downstreams().len() && #[trigger] self.spec_downstreams()[i].spec_id()
                == id
    }

    /// Where the downstream with this group id stands in the registry.
    pub open spec fn downstream_index(&self, id: u32) -> int {
        choose|i: int|
            0 <= i < self.spec_downstreams().len() && #[trigger] self.spec_downstreams()[i].spec_id()
                == id
    }

    /// Index of the downstream with this group id, if registered.
    fn find_downstream(&self, id: u32) -> (r: Option<usize>)
        requires
            self.wf(),
        ensures
            r is None == !self.has_downstream(id),
            r is Some ==> r->Some_0 == self.downstream_index(id) && r->Some_0
                < self.spec_downstreams().len(),
    {
        let mut i: usize = 0;
        while i < self.group_downstreams.len()
            invariant
                self.wf(),
                i <= self.group_downstreams@.len(),
                forall|k: int|
                    0 <= k < i ==> #[trigger] self.group_downstreams@[k].spec_id() != id,
            decreases self.group_downstreams@.len() - i,
        {
            if self.group_downstreams[i].id() == id {
                proof {
                    assert(self.spec_downstreams()[i as int].spec_id() == id);
                    let j = self.downstream_index(id);
                    if j != i {
                        if j < i {
                            assert(self.group_downstreams@[j].spec_id()
                                != self.group_downstreams@[i as int].spec_id());
                        } else {
                            assert(self.group_downstreams@[i as int].spec_id()
                                != self.group_downstreams@[j].spec_id());
                        }
                    }
                }
                return Some(i);
            }
            i = i + 1;
        }
        None
    }

    /// The downstream with this group id, if registered.
    pub fn downstream(&self, id: u32) -> (r: Option<&Downstream>)
        requires
            self.wf(),
        ensures
            r is None == !self.has_downstream(id),
            r is Some ==> *r->Some_0 == self.spec_downstreams()[self.downstream_index(id)],
    {
        match self.find_downstream(id) {
            Some(i) => Some(&self.group_downstreams[i]),
            None => None,
        }
    }

    /// Opens an extended channel on the downstream with this group id,
    /// drawing its extranonce prefix from the pool's generator (see
    /// `Downstream::open_extended_channel`).
    pub fn open_extended_channel(&mut self, id: u32, request_id: u32, target: Vec<u8>) -> (r:
        Result<OpenExtendedMiningChannelSuccess, Error>)
        requires
            old(self).wf(),
        ensures
            final(self).wf(),
            final(self).spec_new_template_processed() == old(self).spec_new_template_processed(),
            final(self).fanouts() == old(self).fanouts(),
            final(self).spec_last_prev_hash() == old(self).spec_last_prev_hash(),
            final(self).spec_downstreams().len() == old(self).spec_downstreams().len(),
            !old(self).has_downstream(id) ==> r == Err::<OpenExtendedMiningChannelSuccess, Error>(
                Error::DownstreamNotFound(id),
            ),
            old(self).has_downstream(id) && target@.len() == 32 && old(
                self,
            ).spec_downstreams()[old(self).downstream_index(id)].spec_channel_ids() < u32::MAX
                && old(self).spec_extranonces().issued().len() + 1 < vstd::arithmetic::power::pow(
                256,
                (old(self).spec_extranonces().spec_r1_end() - old(
                    self,
                ).spec_extranonces().spec_r1_start()) as nat,
            ) ==> r is Ok,
            r is Ok ==> {
                let i = old(self).downstream_index(id);
                &&& old(self).has_downstream(id)
                &&& opened_channel(
                    &old(self).spec_downstreams()[i],
                    &final(self).spec_downstreams()[i],
                    &old(self).spec_extranonces(),
                    &final(self).spec_extranonces(),
                    request_id,
                    target@,
                    r->Ok_0,
                )
                &&& forall|k: int|
                    0 <= k < old(self).spec_downstreams().len() && k != i
                        ==> #[trigger] final(self).spec_downstreams()[k] == old(
                        self,
                    ).spec_downstreams()[k]
            },
            r is Err ==> final(self).spec_extranonces() == old(self).spec_extranonces()
                && final(self).spec_downstreams() == old(self).spec_downstreams(),
    {
        let i = match self.find_downstream(id) {
            Some(i) => i,
            None => {
                return Err(Error::DownstreamNotFound(id));
            },
        };
        let ghost before = *self;
        let mut d = self.group_downstreams.remove(i);
        assert(d == before.group_downstreams@[i as int]);
        let r = d.open_extended_channel(&mut self.extranonces, request_id, target);
        self.group_downstreams.insert(i, d);
        proof {
            assert(self.group_downstreams@[i as int] == d);
            assert(old(self).downstream_index(id) == i);
            if r is Err {
                assert(self.group_downstreams@ =~= before.group_downstreams@);
            }
            assert(self.group_downstreams@ =~= before.group_downstreams@.update(i as int, d));
            assert forall|k: int|
                #![trigger self.group_downstreams@[k]]
                0 <= k < self.group_downstreams@.len() implies self.group_downstreams@[k].wf()
                && 0 < self.group_downstreams@[k].spec_id() <= self.group_ids by {
                if k != i {
                    assert(self.group_downstreams@[k] == before.group_downstreams@[k]);
                }
            }
            assert forall|a: int, b: int|
                #![trigger self.group_downstreams@[a].spec_id(), self.group_downstreams@[b].spec_id()]
                0 <= a < b < self.group_downstreams@.len() implies self.group_downstreams@[a].spec_id()
                != self.group_downstreams@[b].spec_id() by {
                assert(before.group_downstreams@[a].spec_id()
                    != before.group_downstreams@[b].spec_id());
            }
        }
        r
    }

    /// Answers a share submission on the downstream with this group id
    /// (see `Downstream::handle_submit_shares_extended`).
    pub fn handle_submit_shares_extended(&mut self, id: u32, m: &SubmitSharesExtended) -> (r:
        Result<(Mining, Option<SubmitSolution>), Error>)
        requires
            old(self).wf(),
        ensures
            final(self).wf(),
            final(self).spec_new_template_processed() == old(self).spec_new_template_processed(),
            final(self).fanouts() == old(self).fanouts(),
            final(self).spec_last_prev_hash() == old(self).spec_last_prev_hash(),
            final(self).spec_extranonces() == old(self).spec_extranonces(),
            final(self).spec_downstreams().len() == old(self).spec_downstreams().len(),
            (r is Err) == !old(self).has_downstream(id),
            r is Err ==> r == Err::<(Mining, Option<SubmitSolution>), Error>(
                Error::DownstreamNotFound(id),
            ),
            r is Ok ==> {
                let i = old(self).downstream_index(id);
                let before = old(self).spec_downstreams()[i];
                let after = final(self).spec_downstreams()[i];
                &&& before.has_channel(m.channel_id) ==> exists|
                    res: Result<VelideateTargetResult, Error>,
                |
                    #[trigger] share_outcome(
                        before.spec_jobs(),
                        after.spec_jobs(),
                        before.channel_index(m.channel_id),
                        m.nonce,
                        m.version,
                        m.ntime,
                        Some(m.extranonce@),
                        res,
                    ) && reply_for(m.channel_id, m.sequence_number, res, r->Ok_0)
                &&& !before.has_channel(m.channel_id) ==> reply_for(
                    m.channel_id,
                    m.sequence_number,
                    Err(Error::ChannelNotFound(m.channel_id)),
                    r->Ok_0,
                )
            },
    {
        let i = match self.find_downstream(id) {
            Some(i) => i,
            None => {
                return Err(Error::DownstreamNotFound(id));
            },
        };
        let ghost before = *self;
        let mut d = self.group_downstreams.remove(i);
        let ghost d0 = d;
        assert(d0 == before.group_downstreams@[i as int]);
        let r = d.handle_submit_shares_extended(m);
        self.group_downstreams.insert(i, d);
        proof {
            assert(self.group_downstreams@[i as int] == d);
            assert(old(self).downstream_index(id) == i);
            assert(self.group_downstreams@ =~= before.group_downstreams@.update(i as int, d));
            assert forall|k: int|
                #![trigger self.group_downstreams@[k]]
                0 <= k < self.group_downstreams@.len() implies self.group_downstreams@[k].wf()
                && 0 < self.group_downstreams@[k].spec_id() <= self.group_ids by {
                if k != i {
                    assert(self.group_downstreams@[k] == before.group_downstreams@[k]);
                }
            }
            assert forall|a: int, b: int|
                #![trigger self.group_downstreams@[a].spec_id(), self.group_downstreams@[b].spec_id()]
                0 <= a < b < self.group_downstreams@.len() implies self.group_downstreams@[a].spec_id()
                != self.group_downstreams@[b].spec_id() by {
                assert(before.group_downstreams@[a].spec_id()
                    != before.group_downstreams@[b].spec_id());
            }
        }
        Ok(r)
    }

    /// Fans a new template out: each downstream takes in the extended job
    /// that the job creator made for its group id (see
    /// `Downstream::on_new_extended_job`), and the job goes out to it. A
    /// downstream with no job in `new_jobs`, or that refuses its job, gets
    /// none. Then the barrier opens for the next previous hash.
    #[verifier::rlimit(40)]
    pub fn on_new_template(
        &mut self,
        template_id: u64,
        new_jobs: Vec<(u32, NewExtendedMiningJob)>,
    ) -> (r: Vec<(u32, Mining)>)
        requires
            old(self).wf(),
        ensures
            final(self).wf(),
            final(self).spec_new_template_processed(),
            final(self).fanouts() == old(self).fanouts().push(FanOut::Template),
            final(self).spec_last_prev_hash() == old(self).spec_last_prev_hash(),
            final(self).spec_group_ids() == old(self).spec_group_ids(),
            final(self).spec_downstreams().len() == old(self).spec_downstreams().len(),
            forall|k: int|
                0 <= k < final(self).spec_downstreams().len()
                    ==> #[trigger] final(self).spec_downstreams()[k].spec_id()
                    == old(self).spec_downstreams()[k].spec_id(),
            forall|k: int|
                #![trigger final(self).spec_downstreams()[k]]
                0 <= k < final(self).spec_downstreams().len() ==> template_step(
                    old(self).spec_downstreams()[k],
                    final(self).spec_downstreams()[k],
                    new_jobs@,
                    template_id,
                ),
            r@.len() == template_receivers(old(self).spec_downstreams(), new_jobs@).len(),
            forall|k: int|
                #![trigger r@[k]]
                0 <= k < r@.len() ==> {
                    &&& r@[k].0 == template_receivers(old(self).spec_downstreams(), new_jobs@)[k]
                    &&& r@[k].1 is NewExtendedMiningJob
                    &&& job_for(new_jobs@, r@[k].0) is Some
                    &&& r@[k].1->NewExtendedMiningJob_0.same_as(
                        &job_for(new_jobs@, r@[k].0)->Some_0,
                    )
                },
    {
        let mut pending: Vec<Downstream> = Vec::new();
        std::mem::swap(&mut pending, &mut self.group_downstreams);
        let ghost all = pending@;
        let (done, out) = template_fan_out(pending, template_id, &new_jobs);
        self.group_downstreams = done;
        self.new_template_processed = true;
        proof {
            let old_log = self.fanouts@;
            self.fanouts = Ghost(old_log.push(FanOut::Template));
            lemma_log_push(old_log, FanOut::Template);
            lemma_same_ids(all, self.group_downstreams@, self.group_ids);
        }
        out
    }

    /// Fans a new previous hash out, once the barrier is open: otherwise
    /// the answer is to wait and ask again, and nothing changes. When open,
    /// the barrier closes, the hash is kept for downstreams that connect
    /// later, and each downstream takes in a `SetNewPrevHash` for the job id
    /// that `job_ids` gives for its group id (see
    /// `Downstream::on_new_prev_hash_sync`); a downstream with no job id
    /// there is skipped. A hash that is not 32 bytes long is refused.
    #[verifier::rlimit(40)]
    pub fn on_new_prev_hash(&mut self, prev: TemplatePrevHash, job_ids: Vec<(u32, u32)>) -> (r:
        Result<PrevHashStep, Error>)
        requires
            old(self).wf(),
        ensures
            final(self).wf(),
            !old(self).spec_new_template_processed() ==> r is Ok && r->Ok_0 is Wait
                && *final(self) == *old(self),
            old(self).spec_new_template_processed() && prev.prev_hash@.len() != 32 ==> r
                == Err::<PrevHashStep, Error>(Error::ExpectedLen32(prev.prev_hash@.len() as usize))
                && *final(self) == *old(self),
            old(self).spec_new_template_processed() && prev.prev_hash@.len() == 32 ==> {
                &&& r is Ok
                &&& r->Ok_0 is Send
                &&& !final(self).spec_new_template_processed()
                &&& final(self).fanouts() == old(self).fanouts().push(FanOut::PrevHash)
                &&& final(self).spec_last_prev_hash() == Some(prev.prev_hash@)
                &&& final(self).spec_group_ids() == old(self).spec_group_ids()
                &&& final(self).spec_downstreams().len() == old(self).spec_downstreams().len()
                &&& forall|k: int|
                    0 <= k < final(self).spec_downstreams().len()
                        ==> #[trigger] final(self).spec_downstreams()[k].spec_id()
                        == old(self).spec_downstreams()[k].spec_id()
                &&& forall|k: int|
                    #![trigger final(self).spec_downstreams()[k]]
                    0 <= k < final(self).spec_downstreams().len() ==> prev_hash_step(
                        old(self).spec_downstreams()[k],
                        final(self).spec_downstreams()[k],
                        job_ids@,
                        prev.prev_hash@,
                        prev.n_bits,
                    )
                &&& r->Ok_0->Send_0@.len() == prev_hash_receivers(
                    old(self).spec_downstreams(),
                    job_ids@,
                ).len()
                &&& forall|k: int|
                    #![trigger r->Ok_0->Send_0@[k]]
                    0 <= k < r->Ok_0->Send_0@.len() ==> r->Ok_0->Send_0@[k].0
                        == prev_hash_receivers(old(self).spec_downstreams(), job_ids@)[k]
                &&& forall|k: int|
                    #![trigger r->Ok_0->Send_0@[k]]
                    0 <= k < r->Ok_0->Send_0@.len() ==> {
                        let (id, m) = r->Ok_0->Send_0@[k];
                        &&& m is SetNewPrevHash
                        &&& m->SetNewPrevHash_0.channel_id == id
                        &&& job_id_for(job_ids@, id) == Some(m->SetNewPrevHash_0.job_id)
                        &&& m->SetNewPrevHash_0.prev_hash@ == prev.prev_hash@
                        &&& m->SetNewPrevHash_0.nbits == prev.n_bits
                        &&& m->SetNewPrevHash_0.min_ntime == 0
                    }
            },
    {
        if !self.new_template_processed {
            return Ok(PrevHashStep::Wait);
        }
        if prev.prev_hash.len() != 32 {
            return Err(Error::ExpectedLen32(prev.prev_hash.len()));
        }
        self.new_template_processed = false;
        let mut pending: Vec<Downstream> = Vec::new();
        std::mem::swap(&mut pending, &mut self.group_downstreams);
        let ghost all = pending@;
        let (done, out) = prev_hash_fan_out(pending, &prev, &job_ids);
        self.group_downstreams = done;
        self.last_new_prev_hash = Some(prev);
        proof {
            let old_log = self.fanouts@;
            self.fanouts = Ghost(old_log.push(FanOut::PrevHash));
            lemma_log_push(old_log, FanOut::PrevHash);
            lemma_same_ids(all, self.group_downstreams@, self.group_ids);
        }
        Ok(PrevHashStep::Send(out))
    }
}

/// A previous hash is fanned out only right after a template has been
/// fanned out to every downstream, with no other previous hash between.
pub proof fn lemma_prev_hash_fanout_follows_template(pool: &Pool, i: int)
    requires
        pool.wf(),
        0 <= i < pool.fanouts().len(),
        pool.fanouts()[i] is PrevHash,
    ensures
        i > 0,
        pool.fanouts()[i - 1] is Template,
{
    assert(pool.fanouts()[i] == pool.fanouts@[i]);
}

/// Takes a template in on each downstream of `pending`, in order.
fn template_fan_out(
    pending: Vec<Downstream>,
    template_id: u64,
    new_jobs: &Vec<(u32, NewExtendedMiningJob)>,
) -> (r: (Vec<Downstream>, Vec<(u32, Mining)>))
    requires
        forall|k: int| #![trigger pending@[k]] 0 <= k < pending@.len() ==> pending@[k].wf(),
    ensures
        r.0@.len() == pending@.len(),
        forall|k: int|
            #![trigger r.0@[k]]
            0 <= k < r.0@.len() ==> r.0@[k].wf() && r.0@[k].spec_id() == pending@[k].spec_id()
                && template_step(pending@[k], r.0@[k], new_jobs@, template_id),
        r.1@.len() == template_receivers(pending@, new_jobs@).len(),
        forall|k: int|
            #![trigger r.1@[k]]
            0 <= k < r.1@.len() ==> {
                &&& r.1@[k].0 == template_receivers(pending@, new_jobs@)[k]
                &&& r.1@[k].1 is NewExtendedMiningJob
                &&& job_for(new_jobs@, r.1@[k].0) is Some
                &&& r.1@[k].1->NewExtendedMiningJob_0.same_as(&job_for(new_jobs@, r.1@[k].0)->Some_0)
            },
{
    let mut pending = pending;
    let ghost all = pending@;
    assert(all.take(0) =~= Seq::<Downstream>::empty());
    let mut done: Vec<Downstream> = Vec::new();
    let mut out: Vec<(u32, Mining)> = Vec::new();
    while pending.len() > 0
        invariant
            done@.len() + pending@.len() == all.len(),
            forall|k: int|
                #![trigger done@[k]]
                0 <= k < done@.len() ==> done@[k].wf() && done@[k].spec_id() == all[k].spec_id(),
            forall|k: int|
                #![trigger pending@[k]]
                0 <= k < pending@.len() ==> pending@[k] == all[done@.len() + k],
            forall|k: int|
                #![trigger all[k]]
                0 <= k < all.len() ==> all[k].wf(),
            forall|k: int|
                #![trigger done@[k]]
                0 <= k < done@.len() ==> template_step(all[k], done@[k], new_jobs@, template_id),
            out@.len() == template_receivers(all.take(done@.len() as int), new_jobs@).len(),
            forall|k: int|
                #![trigger out@[k]]
                0 <= k < out@.len() ==> {
                    &&& out@[k].0 == template_receivers(all.take(done@.len() as int), new_jobs@)[k]
                    &&& out@[k].1 is NewExtendedMiningJob
                    &&& job_for(new_jobs@, out@[k].0) is Some
                    &&& out@[k].1->NewExtendedMiningJob_0.same_as(
                        &job_for(new_jobs@, out@[k].0)->Some_0,
                    )
                },
        decreases pending@.len(),
    {
        let ghost n = done@.len();
        let ghost queued = pending@;
        let mut d = pending.remove(0);
        assert(d == all[n as int]);
        let id = d.id();
        let ghost d0 = d;
        match find_new_job(new_jobs, id) {
            Some(j) => {
                let job = new_jobs[j].1.copy();
                let ghost orig = new_jobs@[j as int].1;
                match d.on_new_extended_job(job, template_id) {
                    Ok(sent) => {
                        proof {
                            lemma_took_extended_job_same(&d0, &d, sent, orig, template_id);
                        }
                        out.push((id, Mining::NewExtendedMiningJob(sent)));
                    },
                    Err(_) => {},
                }
            },
            None => {},
        }
        assert(template_step(d0, d, new_jobs@, template_id)) by {
            reveal(template_step);
        }
        assert(all.take(n + 1int).drop_last() =~= all.take(n as int));
        assert(all.take(n + 1int).last() == d0);
        done.push(d);
        proof {
            assert forall|k: int|
                #![trigger pending@[k]]
                0 <= k < pending@.len() implies pending@[k] == all[done@.len() + k] by {
                assert(pending@[k] == queued[k + 1]);
            }
        }
    }
    assert(all.take(done@.len() as int) =~= all);
    (done, out)
}

/// Takes a previous hash in on each downstream of `pending`, in order.
fn prev_hash_fan_out(
    pending: Vec<Downstream>,
    prev: &TemplatePrevHash,
    job_ids: &Vec<(u32, u32)>,
) -> (r: (Vec<Downstream>, Vec<(u32, Mining)>))
    requires
        forall|k: int| #![trigger pending@[k]] 0 <= k < pending@.len() ==> pending@[k].wf(),
        prev.prev_hash@.len() == 32,
    ensures
        r.0@.len() == pending@.len(),
        forall|k: int|
            #![trigger r.0@[k]]
            0 <= k < r.0@.len() ==> r.0@[k].wf() && r.0@[k].spec_id() == pending@[k].spec_id()
                && prev_hash_step(pending@[k], r.0@[k], job_ids@, prev.prev_hash@, prev.n_bits),
        r.1@.len() == prev_hash_receivers(pending@, job_ids@).len(),
        forall|k: int|
            #![trigger r.1@[k]]
            0 <= k < r.1@.len() ==> r.1@[k].0 == prev_hash_receivers(pending@, job_ids@)[k],
        forall|k: int|
            #![trigger r.1@[k]]
            0 <= k < r.1@.len() ==> {
                let (id, m) = r.1@[k];
                &&& m is SetNewPrevHash
                &&& m->SetNewPrevHash_0.channel_id == id
                &&& job_id_for(job_ids@, id) == Some(m->SetNewPrevHash_0.job_id)
                &&& m->SetNewPrevHash_0.prev_hash@ == prev.prev_hash@
                &&& m->SetNewPrevHash_0.nbits == prev.n_bits
                &&& m->SetNewPrevHash_0.min_ntime == 0
            },
{
    let mut pending = pending;
    let ghost all = pending@;
    assert(all.take(0) =~= Seq::<Downstream>::empty());
    let mut done: Vec<Downstream> = Vec::new();
    let mut out: Vec<(u32, Mining)> = Vec::new();
    while pending.len() > 0
        invariant
            prev.prev_hash@.len() == 32,
            done@.len() + pending@.len() == all.len(),
            forall|k: int|
                #![trigger done@[k]]
                0 <= k < done@.len() ==> done@[k].wf() && done@[k].spec_id() == all[k].spec_id(),
            forall|k: int|
                #![trigger pending@[k]]
                0 <= k < pending@.len() ==> pending@[k] == all[done@.len() + k],
            forall|k: int|
                #![trigger all[k]]
                0 <= k < all.len() ==> all[k].wf(),
            forall|k: int|
                #![trigger done@[k]]
                0 <= k < done@.len() ==> prev_hash_step(
                    all[k],
                    done@[k],
                    job_ids@,
                    prev.prev_hash@,
                    prev.n_bits,
                ),
            out@.len() == prev_hash_receivers(all.take(done@.len() as int), job_ids@).len(),
            forall|k: int|
                #![trigger out@[k]]
                0 <= k < out@.len() ==> out@[k].0 == prev_hash_receivers(
                    all.take(done@.len() as int),
                    job_ids@,
                )[k],
            forall|k: int|
                #![trigger out@[k]]
                0 <= k < out@.len() ==> {
                    let (id, m) = out@[k];
                    &&& m is SetNewPrevHash
                    &&& m->SetNewPrevHash_0.channel_id == id
                    &&& job_id_for(job_ids@, id) == Some(m->SetNewPrevHash_0.job_id)
                    &&& m->SetNewPrevHash_0.prev_hash@ == prev.prev_hash@
                    &&& m->SetNewPrevHash_0.nbits == prev.n_bits
                    &&& m->SetNewPrevHash_0.min_ntime == 0
                },
        decreases pending@.len(),
    {
        let ghost n = done@.len();
        let ghost queued = pending@;
        let mut d = pending.remove(0);
        assert(d == all[n as int]);
        let id = d.id();
        let ghost d0 = d;
        match find_job_id(job_ids, id) {
            Some(job_id) => {
                let message = SetNewPrevHash {
                    channel_id: id,
                    job_id,
                    prev_hash: copy_bytes(&prev.prev_hash),
                    min_ntime: 0,
                    nbits: prev.n_bits,
                };
                match d.on_new_prev_hash_sync(message) {
                    Ok(sent) => {
                        out.push((id, Mining::SetNewPrevHash(sent)));
                    },
                    Err(_) => {},
                }
            },
            None => {},
        }
        assert(prev_hash_step(d0, d, job_ids@, prev.prev_hash@, prev.n_bits)) by {
            reveal(prev_hash_step);
        }
        assert(all.take(n + 1int).drop_last() =~= all.take(n as int));
        assert(all.take(n + 1int).last() == d0);
        done.push(d);
        proof {
            assert forall|k: int|
                #![trigger pending@[k]]
                0 <= k < pending@.len() implies pending@[k] == all[done@.len() + k] by {
                assert(pending@[k] == queued[k + 1]);
            }
        }
    }
    assert(all.take(done@.len() as int) =~= all);
    (done, out)
}

proof fn lemma_log_push(log: Seq<FanOut>, x: FanOut)
    requires
        prev_hashes_follow_templates(log),
        x is PrevHash ==> log.len() > 0 && log.last() is Template,
    ensures
        prev_hashes_follow_templates(log.push(x)),
{
    let l2 = log.push(x);
    assert forall|i: int|
        #![trigger l2[i]]
        0 <= i < l2.len() && l2[i] is PrevHash implies i > 0 && l2[i - 1] is Template by {
        if i < log.len() {
            assert(l2[i] == log[i]);
            assert(log[i - 1] == l2[i - 1]);
        } else {
            assert(l2[i - 1] == log.last());
        }
    }
}

proof fn lemma_same_ids(before: Seq<Downstream>, after: Seq<Downstream>, group_ids: u32)
    requires
        forall|i: int|
            #![trigger before[i]]
            0 <= i < before.len() ==> before[i].wf() && 0 < before[i].spec_id() <= group_ids,
        forall|i: int, j: int|
            #![trigger before[i].spec_id(), before[j].spec_id()]
            0 <= i < j < before.len() ==> before[i].spec_id() != before[j].spec_id(),
        after.len() == before.len(),
        forall|k: int|
            #![trigger after[k]]
            0 <= k < after.len() ==> after[k].wf() && after[k].spec_id() == before[k].spec_id(),
    ensures
        forall|i: int|
            #![trigger after[i]]
            0 <= i < after.len() ==> after[i].wf() && 0 < after[i].spec_id() <= group_ids,
        forall|i: int, j: int|
            #![trigger after[i].spec_id(), after[j].spec_id()]
            0 <= i < j < after.len() ==> after[i].spec_id() != after[j].spec_id(),
{
    assert forall|i: int| #![trigger after[i]] 0 <= i < after.len() implies after[i].wf() && 0
        < after[i].spec_id() <= group_ids by {
        assert(before[i].spec_id() == after[i].spec_id());
    }
    assert forall|i: int, j: int|
        #![trigger after[i].spec_id(), after[j].spec_id()]
        0 <= i < j < after.len() implies after[i].spec_id() != after[j].spec_id() by {
        assert(after[i] == after[i] && after[j] == after[j]);
        assert(before[i].spec_id() != before[j].spec_id());
    }
}

/// The first job for group `id` in `jobs`, if any.
pub open spec fn job_for(jobs: Seq<(u32, NewExtendedMiningJob)>, id: u32) -> Option<
    NewExtendedMiningJob,
>
    decreases jobs.len(),
{
    if jobs.len() == 0 {
        None
    } else if jobs[0].0 == id {
        Some(jobs[0].1)
    } else {
        job_for(jobs.drop_first(), id)
    }
}

/// The first job id for group `id` in `job_ids`, if any.
pub open spec fn job_id_for(job_ids: Seq<(u32, u32)>, id: u32) -> Option<u32>
    decreases job_ids.len(),
{
    if job_ids.len() == 0 {
        None
    } else if job_ids[0].0 == id {
        Some(job_ids[0].1)
    } else {
        job_id_for(job_ids.drop_first(), id)
    }
}

/// Index of the first job for group `id` in `new_jobs`, if any.
fn find_new_job(new_jobs: &Vec<(u32, NewExtendedMiningJob)>, id: u32) -> (r: Option<usize>)
    ensures
        r is None ==> job_for(new_jobs@, id) is None,
        r is Some ==> r->Some_0 < new_jobs@.len() && job_for(new_jobs@, id) == Some(
            new_jobs@[r->Some_0 as int].1,
        ),
{
    let mut i: usize = 0;
    assert(new_jobs@.skip(0) =~= new_jobs@);
    while i < new_jobs.len()
        invariant
            i <= new_jobs@.len(),
            job_for(new_jobs@, id) == job_for(new_jobs@.skip(i as int), id),
        decreases new_jobs@.len() - i,
    {
        if new_jobs[i].0 == id {
            return Some(i);
        }
        assert(new_jobs@.skip(i as int).drop_first() =~= new_jobs@.skip(i + 1));
        i = i + 1;
    }
    None
}

/// The first job id given for group `id` in `job_ids`, if any.
fn find_job_id(job_ids: &Vec<(u32, u32)>, id: u32) -> (r: Option<u32>)
    ensures
        r == job_id_for(job_ids@, id),
{
    let mut i: usize = 0;
    assert(job_ids@.skip(0) =~= job_ids@);
    while i < job_ids.len()
        invariant
            i <= job_ids@.len(),
            job_id_for(job_ids@, id) == job_id_for(job_ids@.skip(i as int), id),
        decreases job_ids@.len() - i,
    {
        if job_ids[i].0 == id {
            return Some(job_ids[i].1);
        }
        assert(job_ids@.skip(i as int).drop_first() =~= job_ids@.skip(i + 1));
        i = i + 1;
    }
    None
}

} // verus!
