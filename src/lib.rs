//! Job lifecycle, extranonce partitioning and share validation for a
//! Stratum V2 mining pool that serves extended channels.
//!
//! - `extranonce`: hands out distinct per-channel extranonce prefixes.
//! - `merkle`, `hash`: coinbase and merkle root of a candidate block, and
//!   what the `bitcoin` crate computes for it (double SHA-256, header
//!   encoding, compact targets).
//! - `job`: a channel's partial or complete job and the check of a share
//!   against the network and downstream targets.
//! - `downstream`: one connection's channels, future jobs and previous hash,
//!   and the order of what it is sent.
//! - `pool`: the registry of downstreams and the template / previous-hash
//!   fan-outs with the barrier between them.
//! - `messages`, `codec`: the mining messages and their wire encoding.
//! - `args`, `keys`: the command line and the pool's coinbase key.
pub mod args;
pub mod bytes;
pub mod codec;
pub mod downstream;
pub mod errors;
pub mod extranonce;
pub mod hash;
pub mod job;
pub mod keys;
pub mod merkle;
pub mod messages;
pub mod pool;
