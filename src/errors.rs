//! Errors of the pool's job and channel logic.
use vstd::prelude::*;

verus! {

/// What can go wrong while dispatching jobs and validating shares.
#[derive(Debug, Clone, Copy, PartialEq, Eq, Structural)]
pub enum Error {
    /// A payload does not fit into a frame.
    BadPayloadSize,
    /// A 32-byte value was expected; the length found is given.
    ExpectedLen32(usize),
    /// A message of this type cannot be handled here.
    WrongMessageType(u8),
    /// A message arrived that the current state does not expect.
    UnexpectedMessage,
    /// No future job is waiting for a previous hash.
    NoFutureJobs,
    /// A previous hash names a job id that was never announced.
    PrevHashRequireNonExistentJobId(u32),
    /// A job cannot become active before any previous hash is known.
    PrevHashUnknown,
    /// No downstream is registered under this group id.
    DownstreamNotFound(u32),
    /// No downstream is connected.
    NoDownstreamsConnected,
    /// The channel-unique part of the extranonce space is used up.
    NoMoreExtranonces,
    /// An id counter would wrap.
    IdOverflow,
    /// A share names a channel that is not open.
    ChannelNotFound(u32),
    /// A share names a channel whose job has no previous hash yet.
    JobNotComplete(u32),
    /// A share's extranonce part is longer than the channel's extranonce.
    ExtranonceTooLong(usize),
    /// Header-only (standard) channels are not served.
    StandardChannelNotSupported,
    /// A byte string was cut short while decoding.
    OutOfBound,
    /// A destination buffer is too small: (needed, available).
    WriteError(usize, usize),
    /// A length-prefixed field is longer than its type allows.
    ValueExceedsMaxSize(usize),
}

} // verus!
