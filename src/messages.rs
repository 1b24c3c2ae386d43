//! Mining messages exchanged with a downstream on extended channels.
use vstd::prelude::*;

verus! {

use crate::bytes::slice_to_vec;
use vstd::string::StringSliceAdditionalSpecFns;
use crate::downstream::SetNewPrevHash;
use crate::job::NewExtendedMiningJob;

/// Asks for an extended channel.
pub struct OpenExtendedMiningChannel {
    pub request_id: u32,
    pub user_identity: Vec<u8>,
    /// The bits of the IEEE-754 single that the wire carries.
    pub nominal_hash_rate: u32,
    /// 32 bytes, most significant first.
    pub max_target: Vec<u8>,
    pub min_extranonce_size: u16,
}

/// Grants an extended channel.
pub struct OpenExtendedMiningChannelSuccess {
    pub request_id: u32,
    pub channel_id: u32,
    /// 32 bytes, most significant first.
    pub target: Vec<u8>,
    /// Bytes of the extranonce left to the miner.
    pub extranonce_size: u16,
    pub extranonce_prefix: Vec<u8>,
}

/// A share on an extended channel.
pub struct SubmitSharesExtended {
    pub channel_id: u32,
    pub sequence_number: u32,
    pub job_id: u32,
    pub nonce: u32,
    pub ntime: u32,
    pub version: u32,
    /// The miner's part of the extranonce.
    pub extranonce: Vec<u8>,
}

/// Acknowledges accepted shares.
pub struct SubmitSharesSuccess {
    pub channel_id: u32,
    pub last_sequence_number: u32,
    pub new_submits_accepted_count: u32,
    pub new_shares_sum: u64,
}

/// Why a share was refused.
#[derive(Debug, Clone, Copy, PartialEq, Eq, Structural)]
pub enum ShareErrorCode {
    InvalidChannelId,
    StaleShare,
    DifficultyTooLow,
    InvalidExtranonce,
}

/// Refuses a share.
pub struct SubmitSharesError {
    pub channel_id: u32,
    pub sequence_number: u32,
    pub error_code: ShareErrorCode,
}

/// Refuses a channel update.
pub struct UpdateChannelError {
    pub channel_id: u32,
    /// Human-readable reason, such as `max-target-out-of-range` or
    /// `invalid-channel-id`.
    pub error_code: Vec<u8>,
}

/// The wire text of a share error code.
pub open spec fn error_code_bytes(c: ShareErrorCode) -> Seq<u8> {
    match c {
        ShareErrorCode::InvalidChannelId => "invalid-channel-id".spec_bytes(),
        ShareErrorCode::StaleShare => "stale-share".spec_bytes(),
        ShareErrorCode::DifficultyTooLow => "difficulty-too-low".spec_bytes(),
        ShareErrorCode::InvalidExtranonce => "invalid-extranonce".spec_bytes(),
    }
}

impl ShareErrorCode {
    /// The wire text of the code.
    pub fn to_bytes(&self) -> (r: Vec<u8>)
        ensures
            r@ == error_code_bytes(*self),
    {
        let text: &str = match self {
            ShareErrorCode::InvalidChannelId => "invalid-channel-id",
            ShareErrorCode::StaleShare => "stale-share",
            ShareErrorCode::DifficultyTooLow => "difficulty-too-low",
            ShareErrorCode::InvalidExtranonce => "invalid-extranonce",
        };
        slice_to_vec(text.as_bytes())
    }
}

/// A mining message sent to a downstream.
pub enum Mining {
    NewExtendedMiningJob(NewExtendedMiningJob),
    SetNewPrevHash(SetNewPrevHash),
    OpenExtendedMiningChannelSuccess(OpenExtendedMiningChannelSuccess),
    SubmitSharesSuccess(SubmitSharesSuccess),
    SubmitSharesError(SubmitSharesError),
}

} // verus!
