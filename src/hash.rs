//! What the pool takes from the `bitcoin` crate: double SHA-256, the block
//! header encoding and the decoding of a compact target.
use bitcoin::hashes::Hash as HashNewtype;
use vstd::arithmetic::power::pow;
use vstd::prelude::*;

verus! {

use crate::bytes::be_value;

/// SHA-256 applied twice.
pub uninterp spec fn sha256d(data: Seq<u8>) -> Seq<u8>;

/// Relies on `bitcoin::hashes::sha256d::Hash::hash`: the 32-byte digest of
/// SHA-256 applied twice to `data`.
#[verifier::external_body]
pub(crate) fn hash256(data: &Vec<u8>) -> (r: Vec<u8>)
    ensures
        r@ == sha256d(data@),
        r@.len() == 32,
{
    bitcoin::hashes::sha256d::Hash::hash(data.as_slice()).into_inner().to_vec()
}

/// The four bytes of `v`, least significant first.
pub open spec fn le32(v: u32) -> Seq<u8> {
    seq![
        (v % 0x100) as u8,
        ((v / 0x100) % 0x100) as u8,
        ((v / 0x10000) % 0x100) as u8,
        (v / 0x1000000) as u8,
    ]
}

/// The 80-byte Bitcoin block header: version, previous block hash, merkle
/// root, time, compact target and nonce; integers little-endian, hashes in
/// their internal byte order.
pub open spec fn header_bytes(
    version: u32,
    prev_hash: Seq<u8>,
    merkle_root: Seq<u8>,
    time: u32,
    bits: u32,
    nonce: u32,
) -> Seq<u8> {
    le32(version) + prev_hash + merkle_root + le32(time) + le32(bits) + le32(nonce)
}

/// Relies on `bitcoin::consensus::encode::serialize` of a
/// `bitcoin::blockdata::block::BlockHeader`: it writes the six fields in
/// order, `i32` and `u32` little-endian and each hash as its 32 inner bytes.
#[verifier::external_body]
pub(crate) fn serialize_header(
    version: u32,
    prev_hash: &Vec<u8>,
    merkle_root: &Vec<u8>,
    time: u32,
    bits: u32,
    nonce: u32,
) -> (r: Vec<u8>)
    requires
        prev_hash@.len() == 32,
        merkle_root@.len() == 32,
    ensures
        r@ == header_bytes(version, prev_hash@, merkle_root@, time, bits, nonce),
{
    let prev: [u8; 32] = prev_hash.as_slice().try_into().unwrap();
    let root: [u8; 32] = merkle_root.as_slice().try_into().unwrap();
    let header = bitcoin::blockdata::block::BlockHeader {
        version: version as i32,
        prev_blockhash: bitcoin::BlockHash::from_inner(prev),
        merkle_root: bitcoin::TxMerkleNode::from_inner(root),
        time,
        bits,
        nonce,
    };
    bitcoin::consensus::encode::serialize(&header)
}

/// The 256-bit target that the compact form `bits` stands for: a 24-bit
/// mantissa scaled by a power of 256 given by the top byte, zero when the
/// mantissa's sign bit is set, cut to 256 bits.
pub open spec fn compact_target(bits: u32) -> nat {
    let e = bits as nat / 0x1000000;
    let m = bits as nat % 0x1000000;
    let mant: nat = if e <= 3 {
        m / (pow(256, (3 - e) as nat) as nat)
    } else {
        m
    };
    let shift: nat = if e <= 3 {
        0
    } else {
        (e - 3) as nat
    };
    if mant > 0x7fffff {
        0
    } else {
        (mant * (pow(256, shift) as nat)) % (pow(256, 32) as nat)
    }
}

/// Relies on `bitcoin::blockdata::block::BlockHeader::u256_from_compact_target`
/// and `Uint256::to_be_bytes`: the network target of `bits`, most
/// significant byte first.
#[verifier::external_body]
pub(crate) fn target_from_compact(bits: u32) -> (r: Vec<u8>)
    ensures
        r@.len() == 32,
        be_value(r@) == compact_target(bits),
{
    bitcoin::blockdata::block::BlockHeader::u256_from_compact_target(bits).to_be_bytes().to_vec()
}

} // verus!
