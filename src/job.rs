//! Per-channel jobs: the inputs needed to rebuild a block header, and the
//! validation of shares against the downstream and network targets.
use vstd::prelude::*;

verus! {

use crate::bytes::{be_le, be_value, reverse_bytes, reversed, slice_to_vec};
use crate::hash::{
    compact_target,
    hash256,
    header_bytes,
    serialize_header,
    sha256d,
    target_from_compact,
};
use crate::merkle::{build_coinbase, coinbase, concat, merkle_root, merkle_root_from_path, views};

/// An extended mining job as sent to a downstream.
pub struct NewExtendedMiningJob {
    pub channel_id: u32,
    pub job_id: u32,
    /// Set when the job waits for a previous hash that is not known yet.
    pub future_job: bool,
    pub version: u32,
    pub version_rolling_allowed: bool,
    /// Right-hand siblings from the coinbase up to the merkle root.
    pub merkle_path: Vec<Vec<u8>>,
    pub coinbase_tx_prefix: Vec<u8>,
    pub coinbase_tx_suffix: Vec<u8>,
}

/// A block found by a share, for the template provider.
pub struct SubmitSolution {
    pub template_id: u64,
    pub version: u32,
    pub header_timestamp: u32,
    pub header_nonce: u32,
    pub coinbase_tx: Vec<u8>,
}

/// Merkle path and compact target of an extended job.
pub struct ExtendedJob {
    pub merkle_path: Vec<u8>,
    pub nbits: u32,
}

/// A channel's job before any previous hash is bound to it.
pub struct PartialJob {
    /// Downstream target, 32 bytes, most significant first.
    pub target: Vec<u8>,
    /// The channel's full extranonce.
    pub extranonce: Vec<u8>,
}

/// A channel's job with everything needed to rebuild a header.
pub struct CompleteJob {
    pub template_id: u64,
    /// Downstream target, 32 bytes, most significant first.
    pub target: Vec<u8>,
    pub nbits: u32,
    /// Previous block hash, 32 bytes in internal order.
    pub prev_hash: Vec<u8>,
    /// Shares accepted since the job became complete.
    pub new_shares_sum: u64,
    pub coinbase_tx_suffix: Vec<u8>,
    pub coinbase_tx_prefix: Vec<u8>,
    pub extranonce: Vec<u8>,
    pub merkle_path: Vec<Vec<u8>>,
    /// Merkle root for `extranonce`, 32 bytes in internal order.
    pub merkle_root: Vec<u8>,
}

/// How a share compares with the two targets. Each variant carries the
/// block hash in internal order; the accepting ones also the new share count.
pub enum VelideateTargetResult {
    LessThanBitcoinTarget(Vec<u8>, u64, SubmitSolution),
    LessThanDownstreamTarget(Vec<u8>, u64),
    Invalid(Vec<u8>),
}

impl VelideateTargetResult {
    /// The block hash that the result carries.
    pub open spec fn hash_view(&self) -> Seq<u8> {
        match self {
            VelideateTargetResult::LessThanBitcoinTarget(h, _, _) => h@,
            VelideateTargetResult::LessThanDownstreamTarget(h, _) => h@,
            VelideateTargetResult::Invalid(h) => h@,
        }
    }
}

/// A channel's job.
pub enum Job {
    Partial(PartialJob),
    Complete(CompleteJob),
}

/// The extranonce a share was mined with: the job's own, or its leading
/// bytes followed by the miner's part.
pub open spec fn full_extranonce(ext: Seq<u8>, suffix: Option<Seq<u8>>) -> Seq<u8> {
    match suffix {
        None => ext,
        Some(s) => ext.take(ext.len() - s.len()) + s,
    }
}

pub open spec fn slice_view(o: Option<&[u8]>) -> Option<Seq<u8>> {
    match o {
        None => None,
        Some(s) => Some(s@),
    }
}

/// The double SHA-256 of a header, in internal order.
pub open spec fn block_hash(
    version: u32,
    prev_hash: Seq<u8>,
    root: Seq<u8>,
    time: u32,
    bits: u32,
    nonce: u32,
) -> Seq<u8> {
    sha256d(header_bytes(version, prev_hash, root, time, bits, nonce))
}

/// A hash read as a 256-bit number: its bytes reversed, then big-endian.
pub open spec fn hash_value(hash: Seq<u8>) -> nat {
    be_value(reversed(hash))
}

/// One more, stopping at the largest `u64`.
pub open spec fn sat_inc(n: u64) -> u64 {
    if n == u64::MAX {
        n
    } else {
        (n + 1) as u64
    }
}

impl NewExtendedMiningJob {
    /// `self` and `other` hold the same values.
    pub open spec fn same_as(&self, other: &NewExtendedMiningJob) -> bool {
        &&& self.channel_id == other.channel_id
        &&& self.job_id == other.job_id
        &&& self.future_job == other.future_job
        &&& self.version == other.version
        &&& self.version_rolling_allowed == other.version_rolling_allowed
        &&& views(self.merkle_path@) == views(other.merkle_path@)
        &&& self.coinbase_tx_prefix@ == other.coinbase_tx_prefix@
        &&& self.coinbase_tx_suffix@ == other.coinbase_tx_suffix@
    }

    /// A copy of the job.
    pub fn copy(&self) -> (r: NewExtendedMiningJob)
        ensures
            r.same_as(self),
    {
        NewExtendedMiningJob {
            channel_id: self.channel_id,
            job_id: self.job_id,
            future_job: self.future_job,
            version: self.version,
            version_rolling_allowed: self.version_rolling_allowed,
            merkle_path: copy_path(&self.merkle_path),
            coinbase_tx_prefix: copy_bytes(&self.coinbase_tx_prefix),
            coinbase_tx_suffix: copy_bytes(&self.coinbase_tx_suffix),
        }
    }

    /// The merkle root of this job over the channel extranonce `ext`.
    pub open spec fn root_for(&self, ext: Seq<u8>) -> Seq<u8> {
        merkle_root(
            self.coinbase_tx_prefix@,
            self.coinbase_tx_suffix@,
            ext,
            views(self.merkle_path@),
        )
    }
}

impl CompleteJob {
    pub open spec fn wf(&self) -> bool {
        &&& self.target@.len() == 32
        &&& self.prev_hash@.len() == 32
        &&& self.merkle_root@.len() == 32
        &&& self.merkle_root@ == merkle_root(
            self.coinbase_tx_prefix@,
            self.coinbase_tx_suffix@,
            self.extranonce@,
            views(self.merkle_path@),
        )
    }

    /// `self` is the complete job that `job` yields on a channel with the
    /// given target and extranonce once `nbits`, `prev_hash` and
    /// `template_id` are bound to it.
    pub open spec fn built_from(
        &self,
        target: Seq<u8>,
        extranonce: Seq<u8>,
        job: NewExtendedMiningJob,
        nbits: u32,
        prev_hash: Seq<u8>,
        template_id: u64,
    ) -> bool {
        &&& self.wf()
        &&& self.target@ == target
        &&& self.extranonce@ == extranonce
        &&& self.nbits == nbits
        &&& self.prev_hash@ == prev_hash
        &&& self.template_id == template_id
        &&& self.new_shares_sum == 0
        &&& self.coinbase_tx_prefix@ == job.coinbase_tx_prefix@
        &&& self.coinbase_tx_suffix@ == job.coinbase_tx_suffix@
        &&& views(self.merkle_path@) == views(job.merkle_path@)
        &&& self.merkle_root@ == job.root_for(extranonce)
    }

    /// Same job, with `sum` as the share count.
    pub open spec fn same_but_sum(&self, other: &CompleteJob, sum: u64) -> bool {
        &&& other.new_shares_sum == sum
        &&& other.template_id == self.template_id
        &&& other.target@ == self.target@
        &&& other.nbits == self.nbits
        &&& other.prev_hash@ == self.prev_hash@
        &&& other.coinbase_tx_prefix@ == self.coinbase_tx_prefix@
        &&& other.coinbase_tx_suffix@ == self.coinbase_tx_suffix@
        &&& other.extranonce@ == self.extranonce@
        &&& views(other.merkle_path@) == views(self.merkle_path@)
        &&& other.merkle_root@ == self.merkle_root@
    }

    /// The extranonce of a share with the miner's part `suffix`.
    pub open spec fn share_extranonce(&self, suffix: Option<Seq<u8>>) -> Seq<u8> {
        full_extranonce(self.extranonce@, suffix)
    }

    /// The block hash of a share on this job.
    pub open spec fn share_hash(
        &self,
        nonce: u32,
        version: u32,
        ntime: u32,
        suffix: Option<Seq<u8>>,
    ) -> Seq<u8> {
        block_hash(
            version,
            self.prev_hash@,
            merkle_root(
                self.coinbase_tx_prefix@,
                self.coinbase_tx_suffix@,
                self.share_extranonce(suffix),
                views(self.merkle_path@),
            ),
            ntime,
            self.nbits,
            nonce,
        )
    }
}

/// What checking a share with the given fields on the job `before` returns
/// and leaves behind in `after`.
pub open spec fn validated(
    before: CompleteJob,
    after: CompleteJob,
    nonce: u32,
    version: u32,
    ntime: u32,
    sfx: Option<Seq<u8>>,
    r: VelideateTargetResult,
) -> bool {
    let hash = before.share_hash(nonce, version, ntime, sfx);
    let v = hash_value(hash);
    let bitcoin = v <= compact_target(before.nbits);
    let downstream = v <= be_value(before.target@);
    match r {
        VelideateTargetResult::LessThanBitcoinTarget(h, n, sol) => {
            &&& bitcoin
            &&& h@ == hash
            &&& n == sat_inc(before.new_shares_sum)
            &&& before.same_but_sum(&after, n)
            &&& sol.template_id == before.template_id
            &&& sol.version == version
            &&& sol.header_timestamp == ntime
            &&& sol.header_nonce == nonce
            &&& sol.coinbase_tx@ == coinbase(
                before.coinbase_tx_prefix@,
                before.share_extranonce(sfx),
                before.coinbase_tx_suffix@,
            )
        },
        VelideateTargetResult::LessThanDownstreamTarget(h, n) => {
            &&& !bitcoin
            &&& downstream
            &&& h@ == hash
            &&& n == sat_inc(before.new_shares_sum)
            &&& before.same_but_sum(&after, n)
        },
        VelideateTargetResult::Invalid(h) => {
            &&& !bitcoin
            &&& !downstream
            &&& h@ == hash
            &&& before.same_but_sum(&after, before.new_shares_sum)
        },
    }
}

/// Copies a merkle path.
pub fn copy_path(p: &Vec<Vec<u8>>) -> (r: Vec<Vec<u8>>)
    ensures
        views(r@) == views(p@),
{
    let mut r: Vec<Vec<u8>> = Vec::new();
    let mut i: usize = 0;
    while i < p.len()
        invariant
            i <= p@.len(),
            r@.len() == i,
            forall|k: int| 0 <= k < i ==> r@[k]@ == p@[k]@,
        decreases p@.len() - i,
    {
        let item = p[i].clone();
        assert(item@ =~= p@[i as int]@);
        r.push(item);
        i = i + 1;
    }
    assert(views(r@) =~= views(p@));
    r
}

/// Copies a byte string.
pub fn copy_bytes(b: &Vec<u8>) -> (r: Vec<u8>)
    ensures
        r@ == b@,
{
    let r = b.clone();
    assert(r@ =~= b@);
    r
}

/// Builds the complete job for a channel from an extended job and the
/// values bound with the previous hash.
fn complete_from(
    target: &Vec<u8>,
    extranonce: &Vec<u8>,
    new_ext_job: &NewExtendedMiningJob,
    nbits: u32,
    prev_hash: &Vec<u8>,
    template_id: u64,
) -> (r: CompleteJob)
    requires
        target@.len() == 32,
        prev_hash@.len() == 32,
    ensures
        r.built_from(target@, extranonce@, *new_ext_job, nbits, prev_hash@, template_id),
{
    let merkle_root = merkle_root_from_path(
        &new_ext_job.coinbase_tx_prefix,
        &new_ext_job.coinbase_tx_suffix,
        extranonce,
        &new_ext_job.merkle_path,
    );
    let merkle_path = copy_path(&new_ext_job.merkle_path);
    CompleteJob {
        template_id,
        target: copy_bytes(target),
        nbits,
        prev_hash: copy_bytes(prev_hash),
        new_shares_sum: 0,
        coinbase_tx_suffix: copy_bytes(&new_ext_job.coinbase_tx_suffix),
        coinbase_tx_prefix: copy_bytes(&new_ext_job.coinbase_tx_prefix),
        extranonce: copy_bytes(extranonce),
        merkle_path,
        merkle_root,
    }
}

impl PartialJob {
    pub open spec fn wf(&self) -> bool {
        self.target@.len() == 32
    }

    /// The complete job that `new_ext_job` yields on this channel.
    pub fn to_complete_standard_job(
        &self,
        new_ext_job: &NewExtendedMiningJob,
        nbits: u32,
        prev_hash: &Vec<u8>,
        template_id: u64,
    ) -> (r: CompleteJob)
        requires
            self.wf(),
            prev_hash@.len() == 32,
        ensures
            r.built_from(
                self.target@,
                self.extranonce@,
                *new_ext_job,
                nbits,
                prev_hash@,
                template_id,
            ),
    {
        complete_from(&self.target, &self.extranonce, new_ext_job, nbits, prev_hash, template_id)
    }
}

impl CompleteJob {
    /// The coinbase transaction of this job with its own extranonce.
    pub fn get_coinbase(&self) -> (r: Vec<u8>)
        ensures
            r@ == coinbase(self.coinbase_tx_prefix@, self.extranonce@, self.coinbase_tx_suffix@),
    {
        build_coinbase(&self.coinbase_tx_prefix, &self.extranonce, &self.coinbase_tx_suffix)
    }

    /// The job that replaces this one when `new_ext_job` becomes active:
    /// target and extranonce stay, the rest is taken from the arguments and
    /// the share count starts again at zero.
    pub fn update_job(
        &self,
        new_ext_job: &NewExtendedMiningJob,
        nbits: u32,
        prev_hash: &Vec<u8>,
        template_id: u64,
    ) -> (r: CompleteJob)
        requires
            self.wf(),
            prev_hash@.len() == 32,
        ensures
            r.built_from(
                self.target@,
                self.extranonce@,
                *new_ext_job,
                nbits,
                prev_hash@,
                template_id,
            ),
    {
        complete_from(&self.target, &self.extranonce, new_ext_job, nbits, prev_hash, template_id)
    }

    /// Checks a share. The header is rebuilt from the job and the share's
    /// fields; its hash, read as a 256-bit number, is compared first with
    /// the network target of `nbits` and then with the downstream target,
    /// both inclusively. An accepted share adds one to the share count
    /// (stopping at the largest `u64`); a network-target share also yields
    /// the solution to submit.
    pub fn validate_target(
        &mut self,
        nonce: u32,
        version: u32,
        ntime: u32,
        extranonce_suffix: Option<&[u8]>,
    ) -> (r: VelideateTargetResult)
        requires
            old(self).wf(),
            extranonce_suffix is Some ==> extranonce_suffix->Some_0@.len()
                <= old(self).extranonce@.len(),
        ensures
            final(self).wf(),
            validated(*old(self), *final(self), nonce, version, ntime, slice_view(extranonce_suffix), r),
            final(self).new_shares_sum >= old(self).new_shares_sum,
            r.hash_view().len() == 32,
    {
        let extranonce = match extranonce_suffix {
            None => copy_bytes(&self.extranonce),
            Some(suffix) => {
                let mid_point = self.extranonce.len() - suffix.len();
                let mut head: Vec<u8> = Vec::new();
                let mut i: usize = 0;
                while i < mid_point
                    invariant
                        i <= mid_point <= self.extranonce@.len(),
                        head@ == self.extranonce@.take(i as int),
                    decreases mid_point - i,
                {
                    head.push(self.extranonce[i]);
                    assert(self.extranonce@.take(i + 1) =~= self.extranonce@.take(i as int).push(
                        self.extranonce@[i as int],
                    ));
                    i = i + 1;
                }
                let tail = slice_to_vec(suffix);
                concat(&head, &tail)
            },
        };
        let merkle_root = match extranonce_suffix {
            None => copy_bytes(&self.merkle_root),
            Some(_) => merkle_root_from_path(
                &self.coinbase_tx_prefix,
                &self.coinbase_tx_suffix,
                &extranonce,
                &self.merkle_path,
            ),
        };
        let header = serialize_header(
            version,
            &self.prev_hash,
            &merkle_root,
            ntime,
            self.nbits,
            nonce,
        );
        let hash = hash256(&header);
        let value = reverse_bytes(&hash);
        let bitcoin_target = target_from_compact(self.nbits);
        if be_le(&value, &bitcoin_target) {
            if self.new_shares_sum < u64::MAX {
                self.new_shares_sum = self.new_shares_sum + 1;
            }
            let solution = SubmitSolution {
                template_id: self.template_id,
                version,
                header_timestamp: ntime,
                header_nonce: nonce,
                coinbase_tx: build_coinbase(
                    &self.coinbase_tx_prefix,
                    &extranonce,
                    &self.coinbase_tx_suffix,
                ),
            };
            VelideateTargetResult::LessThanBitcoinTarget(hash, self.new_shares_sum, solution)
        } else if be_le(&value, &self.target) {
            if self.new_shares_sum < u64::MAX {
                self.new_shares_sum = self.new_shares_sum + 1;
            }
            VelideateTargetResult::LessThanDownstreamTarget(hash, self.new_shares_sum)
        } else {
            VelideateTargetResult::Invalid(hash)
        }
    }
}

impl Job {
    pub open spec fn wf(&self) -> bool {
        match self {
            Job::Partial(p) => p.wf(),
            Job::Complete(c) => c.wf(),
        }
    }

    /// The channel's downstream target.
    pub open spec fn target_view(&self) -> Seq<u8> {
        match self {
            Job::Partial(p) => p.target@,
            Job::Complete(c) => c.target@,
        }
    }

    /// The channel's extranonce.
    pub open spec fn extranonce_view(&self) -> Seq<u8> {
        match self {
            Job::Partial(p) => p.extranonce@,
            Job::Complete(c) => c.extranonce@,
        }
    }

    /// `self` is the partial job of a channel with this target and extranonce.
    pub open spec fn is_partial_of(&self, target: Seq<u8>, extranonce: Seq<u8>) -> bool {
        &&& self is Partial
        &&& self.target_view() == target
        &&& self.extranonce_view() == extranonce
    }

    /// The job of a newly opened channel.
    pub fn new(target: Vec<u8>, extranonce: Vec<u8>) -> (r: Self)
        requires
            target@.len() == 32,
        ensures
            r.wf(),
            r.is_partial_of(target@, extranonce@),
    {
        Job::Partial(PartialJob { target, extranonce })
    }

    /// The complete job that replaces this one when `new_ext_job` becomes
    /// active with the given previous hash.
    pub fn updated(
        &self,
        new_ext_job: &NewExtendedMiningJob,
        nbits: u32,
        prev_hash: &Vec<u8>,
        template_id: u64,
    ) -> (r: Job)
        requires
            self.wf(),
            prev_hash@.len() == 32,
        ensures
            r.wf(),
            r is Complete,
            r->Complete_0.built_from(
                self.target_view(),
                self.extranonce_view(),
                *new_ext_job,
                nbits,
                prev_hash@,
                template_id,
            ),
    {
        match self {
            Job::Partial(p) => Job::Complete(
                p.to_complete_standard_job(new_ext_job, nbits, prev_hash, template_id),
            ),
            Job::Complete(c) => Job::Complete(
                c.update_job(new_ext_job, nbits, prev_hash, template_id),
            ),
        }
    }

    /// Binds `new_ext_job` and the previous hash to this channel: the job
    /// becomes complete, keeps target and extranonce, and counts shares
    /// from zero.
    pub fn update_job(
        &mut self,
        new_ext_job: &NewExtendedMiningJob,
        nbits: u32,
        prev_hash: &Vec<u8>,
        template_id: u64,
    )
        requires
            old(self).wf(),
            prev_hash@.len() == 32,
        ensures
            final(self).wf(),
            *final(self) is Complete,
            (*final(self))->Complete_0.built_from(
                old(self).target_view(),
                old(self).extranonce_view(),
                *new_ext_job,
                nbits,
                prev_hash@,
                template_id,
            ),
    {
        *self = self.updated(new_ext_job, nbits, prev_hash, template_id);
    }

    /// Turns the job back into a partial one with the same target and
    /// extranonce.
    pub fn make_partial(&mut self)
        requires
            old(self).wf(),
        ensures
            final(self).wf(),
            final(self).is_partial_of(old(self).target_view(), old(self).extranonce_view()),
    {
        let partial = match self {
            Job::Partial(p) => PartialJob {
                target: copy_bytes(&p.target),
                extranonce: copy_bytes(&p.extranonce),
            },
            Job::Complete(c) => PartialJob {
                target: copy_bytes(&c.target),
                extranonce: copy_bytes(&c.extranonce),
            },
        };
        *self = Job::Partial(partial);
    }
}

/// Building a complete job from a partial one and re-deriving it from a
/// complete one give the same merkle root when the extranonce and the
/// extended job are the same.
pub proof fn lemma_merkle_root_deterministic(
    partial: PartialJob,
    complete: CompleteJob,
    new_ext_job: NewExtendedMiningJob,
    nbits: u32,
    prev_hash: Seq<u8>,
    template_id: u64,
    from_partial: CompleteJob,
    from_complete: CompleteJob,
)
    requires
        partial.extranonce@ == complete.extranonce@,
        from_partial.built_from(
            partial.target@,
            partial.extranonce@,
            new_ext_job,
            nbits,
            prev_hash,
            template_id,
        ),
        from_complete.built_from(
            complete.target@,
            complete.extranonce@,
            new_ext_job,
            nbits,
            prev_hash,
            template_id,
        ),
    ensures
        from_partial.merkle_root@ == from_complete.merkle_root@,
        from_partial.merkle_root@ == merkle_root(
            new_ext_job.coinbase_tx_prefix@,
            new_ext_job.coinbase_tx_suffix@,
            partial.extranonce@,
            views(new_ext_job.merkle_path@),
        ),
{
}

} // verus!
