//! Binary encoding of the mining messages on the wire: integers
//! little-endian, byte strings behind a one- or two-byte length, 256-bit
//! values as 32 raw bytes.
use vstd::prelude::*;

verus! {

use crate::downstream::SetNewPrevHash;
use crate::errors::Error;
use crate::hash::le32;
use crate::job::{NewExtendedMiningJob, SubmitSolution};
use crate::merkle::views;
use crate::messages::{
    OpenExtendedMiningChannel,
    OpenExtendedMiningChannelSuccess,
    ShareErrorCode,
    SubmitSharesError,
    SubmitSharesExtended,
    SubmitSharesSuccess,
    UpdateChannelError,
};
use crate::messages::{error_code_bytes, Mining};

/// The two bytes of `v`, least significant first.
pub open spec fn le16(v: u16) -> Seq<u8> {
    seq![(v % 0x100) as u8, (v / 0x100) as u8]
}

/// The eight bytes of `v`, least significant first.
pub open spec fn le64(v: u64) -> Seq<u8> {
    le32((v % 0x1_0000_0000) as u32) + le32((v / 0x1_0000_0000) as u32)
}

/// A boolean as one byte.
pub open spec fn bool_byte(b: bool) -> Seq<u8> {
    seq![if b { 1u8 } else { 0u8 }]
}

/// A byte string behind a one-byte length.
pub open spec fn b0_255(s: Seq<u8>) -> Seq<u8> {
    seq![s.len() as u8] + s
}

/// A byte string behind a two-byte length.
pub open spec fn b0_64k(s: Seq<u8>) -> Seq<u8> {
    le16(s.len() as u16) + s
}

/// The byte strings of `items`, one after the other.
pub open spec fn flatten(items: Seq<Seq<u8>>) -> Seq<u8>
    decreases items.len(),
{
    if items.len() == 0 {
        Seq::empty()
    } else {
        flatten(items.drop_last()) + items.last()
    }
}

/// A sequence of 256-bit values behind a one-byte count.
pub open spec fn seq0_255_u256(items: Seq<Seq<u8>>) -> Seq<u8> {
    seq![items.len() as u8] + flatten(items)
}

/// A value that can be written on the wire.
pub trait Encodable {
    /// Every field fits its wire type.
    spec fn encodable(&self) -> bool;

    /// The bytes that stand for the value on the wire.
    spec fn encoding(&self) -> Seq<u8>;

    /// The error given for a value that does not fit its wire types.
    spec fn refusal(&self) -> Error;

    /// Number of bytes of the encoding.
    fn get_size(&self) -> (r: usize)
        requires
            self.encodable(),
        ensures
            r == self.encoding().len(),
    ;

    /// Appends the encoding to `dst`; refused, with `dst` left as it was,
    /// when a field does not fit its wire type.
    fn to_bytes(&self, dst: &mut Vec<u8>) -> (r: Result<(), Error>)
        ensures
            r is Ok == self.encodable(),
            r is Ok ==> final(dst)@ == old(dst)@ + self.encoding(),
            r is Err ==> final(dst)@ == old(dst)@ && r == Err::<(), Error>(self.refusal()),
    ;
}

/// A value that can be read from the wire.
pub trait Decodable: Encodable + Sized {
    /// `self` and `other` hold the same field values.
    spec fn same_value(&self, other: &Self) -> bool;

    /// Reads a value whose encoding is exactly `data`; whenever some value
    /// encodes to `data`, succeeds with that value.
    fn from_bytes(data: &[u8]) -> (r: Result<Self, Error>)
        ensures
            r is Ok ==> r->Ok_0.encodable() && r->Ok_0.encoding() == data@,
            forall|v: Self|
                v.encodable() && #[trigger] v.encoding() == data@ ==> r is Ok
                    && r->Ok_0.same_value(&v),
    ;
}

/// The encoding of `src` as a new vector.
pub fn to_bytes<T: Encodable>(src: T) -> (r: Result<Vec<u8>, Error>)
    ensures
        r is Ok == src.encodable(),
        r is Err ==> r == Err::<Vec<u8>, Error>(src.refusal()),
        r is Ok ==> r->Ok_0@ == src.encoding(),
{
    let mut result: Vec<u8> = Vec::new();
    match src.to_bytes(&mut result) {
        Ok(()) => {
            assert(result@ =~= src.encoding());
            Ok(result)
        },
        Err(e) => Err(e),
    }
}

/// Writes the encoding of `src` over the start of `dst`, leaving the rest
/// of `dst` as it was. Refused when `dst` is too short.
pub fn to_writer<T: Encodable>(src: T, dst: &mut Vec<u8>) -> (r: Result<(), Error>)
    ensures
        r is Ok == (src.encodable() && src.encoding().len() <= old(dst)@.len()),
        src.encodable() && src.encoding().len() > old(dst)@.len() ==> r == Err::<(), Error>(
            Error::WriteError(src.encoding().len() as usize, old(dst)@.len() as usize),
        ),
        !src.encodable() ==> r == Err::<(), Error>(src.refusal()),
        r is Ok ==> final(dst)@ == src.encoding() + old(dst)@.skip(src.encoding().len() as int),
        r is Err ==> final(dst)@ == old(dst)@,
{
    let mut bytes: Vec<u8> = Vec::new();
    match src.to_bytes(&mut bytes) {
        Ok(()) => {},
        Err(e) => {
            return Err(e);
        },
    }
    assert(bytes@ =~= src.encoding());
    if bytes.len() > dst.len() {
        return Err(Error::WriteError(bytes.len(), dst.len()));
    }
    let mut i: usize = 0;
    while i < bytes.len()
        invariant
            i <= bytes@.len() <= dst@.len(),
            dst@.len() == old(dst)@.len(),
            forall|k: int| 0 <= k < i ==> dst@[k] == bytes@[k],
            forall|k: int| i <= k < dst@.len() ==> dst@[k] == old(dst)@[k],
        decreases bytes@.len() - i,
    {
        dst.set(i, bytes[i]);
        i = i + 1;
    }
    assert(dst@ =~= src.encoding() + old(dst)@.skip(src.encoding().len() as int));
    Ok(())
}

/// Reads a value whose encoding is exactly `data`.
pub fn from_bytes<T: Decodable>(data: &[u8]) -> (r: Result<T, Error>)
    ensures
        r is Ok ==> r->Ok_0.encodable() && r->Ok_0.encoding() == data@,
        forall|v: T|
            v.encodable() && #[trigger] v.encoding() == data@ ==> r is Ok && r->Ok_0.same_value(
                &v,
            ),
{
    T::from_bytes(data)
}

fn push_u16(dst: &mut Vec<u8>, v: u16)
    ensures
        final(dst)@ == old(dst)@ + le16(v),
{
    dst.push((v % 0x100) as u8);
    dst.push((v / 0x100) as u8);
    assert(final(dst)@ =~= old(dst)@ + le16(v));
}

fn push_u32(dst: &mut Vec<u8>, v: u32)
    ensures
        final(dst)@ == old(dst)@ + le32(v),
{
    dst.push((v % 0x100) as u8);
    dst.push(((v / 0x100) % 0x100) as u8);
    dst.push(((v / 0x10000) % 0x100) as u8);
    dst.push((v / 0x1000000) as u8);
    assert(final(dst)@ =~= old(dst)@ + le32(v));
}

fn push_u64(dst: &mut Vec<u8>, v: u64)
    ensures
        final(dst)@ == old(dst)@ + le64(v),
{
    push_u32(dst, (v % 0x1_0000_0000) as u32);
    push_u32(dst, (v / 0x1_0000_0000) as u32);
    assert(final(dst)@ =~= old(dst)@ + le64(v));
}

fn push_bool(dst: &mut Vec<u8>, b: bool)
    ensures
        final(dst)@ == old(dst)@ + bool_byte(b),
{
    dst.push(if b { 1u8 } else { 0u8 });
    assert(final(dst)@ =~= old(dst)@ + bool_byte(b));
}

fn push_all(dst: &mut Vec<u8>, s: &Vec<u8>)
    ensures
        final(dst)@ == old(dst)@ + s@,
{
    let mut i: usize = 0;
    while i < s.len()
        invariant
            i <= s@.len(),
            dst@ == old(dst)@ + s@.take(i as int),
        decreases s@.len() - i,
    {
        dst.push(s[i]);
        assert(s@.take(i + 1) =~= s@.take(i as int).push(s@[i as int]));
        assert(dst@ =~= old(dst)@ + s@.take(i + 1));
        i = i + 1;
    }
    assert(s@.take(i as int) =~= s@);
}

fn push_b0_255(dst: &mut Vec<u8>, s: &Vec<u8>)
    requires
        s@.len() <= 255,
    ensures
        final(dst)@ == old(dst)@ + b0_255(s@),
{
    dst.push(s.len() as u8);
    push_all(dst, s);
    assert(final(dst)@ =~= old(dst)@ + b0_255(s@));
}

fn push_b0_64k(dst: &mut Vec<u8>, s: &Vec<u8>)
    requires
        s@.len() <= 0xffff,
    ensures
        final(dst)@ == old(dst)@ + b0_64k(s@),
{
    push_u16(dst, s.len() as u16);
    push_all(dst, s);
    assert(final(dst)@ =~= old(dst)@ + b0_64k(s@));
}

fn push_seq_u256(dst: &mut Vec<u8>, items: &Vec<Vec<u8>>)
    requires
        items@.len() <= 255,
    ensures
        final(dst)@ == old(dst)@ + seq0_255_u256(views(items@)),
{
    dst.push(items.len() as u8);
    let ghost start = dst@;
    let mut i: usize = 0;
    while i < items.len()
        invariant
            i <= items@.len() <= 255,
            start == old(dst)@.push(items@.len() as u8),
            dst@ == start + flatten(views(items@).take(i as int)),
        decreases items@.len() - i,
    {
        push_all(dst, &items[i]);
        assert(views(items@).take(i + 1).drop_last() =~= views(items@).take(i as int));
        assert(dst@ =~= start + flatten(views(items@).take(i + 1)));
        i = i + 1;
    }
    assert(views(items@).take(i as int) =~= views(items@));
    assert(final(dst)@ =~= old(dst)@ + seq0_255_u256(views(items@)));
}

/// Every item is 32 bytes long.
pub open spec fn all_u256(items: Seq<Seq<u8>>) -> bool {
    forall|i: int| 0 <= i < items.len() ==> #[trigger] items[i].len() == 32
}

/// The length of the first item that is not 32 bytes long (0 if none).
pub open spec fn first_bad_len(items: Seq<Seq<u8>>) -> nat
    decreases items.len(),
{
    if items.len() == 0 {
        0
    } else if items[0].len() != 32 {
        items[0].len()
    } else {
        first_bad_len(items.drop_first())
    }
}

/// The length of the first item that is not 32 bytes long, if any.
fn first_not_u256(items: &Vec<Vec<u8>>) -> (r: Option<usize>)
    ensures
        r is None == all_u256(views(items@)),
        r is Some ==> r->Some_0 == first_bad_len(views(items@)),
{
    let mut i: usize = 0;
    assert(views(items@).skip(0) =~= views(items@));
    while i < items.len()
        invariant
            i <= items@.len(),
            forall|k: int| 0 <= k < i ==> #[trigger] items@[k]@.len() == 32,
            first_bad_len(views(items@)) == first_bad_len(views(items@).skip(i as int)),
        decreases items@.len() - i,
    {
        assert(views(items@).skip(i as int)[0] == items@[i as int]@);
        if items[i].len() != 32 {
            assert(views(items@)[i as int].len() != 32);
            return Some(items[i].len());
        }
        assert(views(items@).skip(i as int).drop_first() =~= views(items@).skip(i + 1));
        i = i + 1;
    }
    None
}

/// Raw bytes, written as they are.
impl Encodable for Vec<u8> {
    open spec fn encodable(&self) -> bool {
        true
    }

    open spec fn encoding(&self) -> Seq<u8> {
        self@
    }

    open spec fn refusal(&self) -> Error {
        Error::BadPayloadSize
    }

    fn get_size(&self) -> (r: usize) {
        self.len()
    }

    fn to_bytes(&self, dst: &mut Vec<u8>) -> (r: Result<(), Error>) {
        push_all(dst, self);
        Ok(())
    }
}

impl Encodable for SetNewPrevHash {
    open spec fn encodable(&self) -> bool {
        self.prev_hash@.len() == 32
    }

    open spec fn encoding(&self) -> Seq<u8> {
        le32(self.channel_id) + le32(self.job_id) + self.prev_hash@ + le32(self.min_ntime) + le32(
            self.nbits,
        )
    }

    open spec fn refusal(&self) -> Error {
        Error::ExpectedLen32(self.prev_hash@.len() as usize)
    }

    fn get_size(&self) -> (r: usize) {
        48
    }

    fn to_bytes(&self, dst: &mut Vec<u8>) -> (r: Result<(), Error>) {
        if self.prev_hash.len() != 32 {
            return Err(Error::ExpectedLen32(self.prev_hash.len()));
        }
        push_u32(dst, self.channel_id);
        push_u32(dst, self.job_id);
        push_all(dst, &self.prev_hash);
        push_u32(dst, self.min_ntime);
        push_u32(dst, self.nbits);
        assert(final(dst)@ =~= old(dst)@ + self.encoding());
        Ok(())
    }
}

impl Encodable for NewExtendedMiningJob {
    open spec fn encodable(&self) -> bool {
        &&& self.merkle_path@.len() <= 255
        &&& all_u256(views(self.merkle_path@))
        &&& self.coinbase_tx_prefix@.len() <= 0xffff
        &&& self.coinbase_tx_suffix@.len() <= 0xffff
    }

    open spec fn encoding(&self) -> Seq<u8> {
        le32(self.channel_id) + le32(self.job_id) + bool_byte(self.future_job) + le32(self.version)
            + bool_byte(self.version_rolling_allowed) + seq0_255_u256(views(self.merkle_path@))
            + b0_64k(self.coinbase_tx_prefix@) + b0_64k(self.coinbase_tx_suffix@)
    }

    open spec fn refusal(&self) -> Error {
        if self.merkle_path@.len() > 255 {
            Error::ValueExceedsMaxSize(self.merkle_path@.len() as usize)
        } else if !all_u256(views(self.merkle_path@)) {
            Error::ExpectedLen32(first_bad_len(views(self.merkle_path@)) as usize)
        } else if self.coinbase_tx_prefix@.len() > 0xffff {
            Error::ValueExceedsMaxSize(self.coinbase_tx_prefix@.len() as usize)
        } else {
            Error::ValueExceedsMaxSize(self.coinbase_tx_suffix@.len() as usize)
        }
    }

    fn get_size(&self) -> (r: usize) {
        let mut v: Vec<u8> = Vec::new();
        let _ = self.to_bytes(&mut v);
        v.len()
    }

    fn to_bytes(&self, dst: &mut Vec<u8>) -> (r: Result<(), Error>) {
        if self.merkle_path.len() > 255 {
            return Err(Error::ValueExceedsMaxSize(self.merkle_path.len()));
        }
        if let Some(len) = first_not_u256(&self.merkle_path) {
            return Err(Error::ExpectedLen32(len));
        }
        if self.coinbase_tx_prefix.len() > 0xffff {
            return Err(Error::ValueExceedsMaxSize(self.coinbase_tx_prefix.len()));
        }
        if self.coinbase_tx_suffix.len() > 0xffff {
            return Err(Error::ValueExceedsMaxSize(self.coinbase_tx_suffix.len()));
        }
        push_u32(dst, self.channel_id);
        push_u32(dst, self.job_id);
        push_bool(dst, self.future_job);
        push_u32(dst, self.version);
        push_bool(dst, self.version_rolling_allowed);
        push_seq_u256(dst, &self.merkle_path);
        push_b0_64k(dst, &self.coinbase_tx_prefix);
        push_b0_64k(dst, &self.coinbase_tx_suffix);
        assert(final(dst)@ =~= old(dst)@ + self.encoding());
        Ok(())
    }
}

impl Encodable for SubmitSolution {
    open spec fn encodable(&self) -> bool {
        self.coinbase_tx@.len() <= 0xffff
    }

    open spec fn encoding(&self) -> Seq<u8> {
        le64(self.template_id) + le32(self.version) + le32(self.header_timestamp) + le32(
            self.header_nonce,
        ) + b0_64k(self.coinbase_tx@)
    }

    open spec fn refusal(&self) -> Error {
        Error::ValueExceedsMaxSize(self.coinbase_tx@.len() as usize)
    }

    fn get_size(&self) -> (r: usize) {
        22 + self.coinbase_tx.len()
    }

    fn to_bytes(&self, dst: &mut Vec<u8>) -> (r: Result<(), Error>) {
        if self.coinbase_tx.len() > 0xffff {
            return Err(Error::ValueExceedsMaxSize(self.coinbase_tx.len()));
        }
        push_u64(dst, self.template_id);
        push_u32(dst, self.version);
        push_u32(dst, self.header_timestamp);
        push_u32(dst, self.header_nonce);
        push_b0_64k(dst, &self.coinbase_tx);
        assert(final(dst)@ =~= old(dst)@ + self.encoding());
        Ok(())
    }
}

impl Encodable for SubmitSharesSuccess {
    open spec fn encodable(&self) -> bool {
        true
    }

    open spec fn encoding(&self) -> Seq<u8> {
        le32(self.channel_id) + le32(self.last_sequence_number) + le32(
            self.new_submits_accepted_count,
        ) + le64(self.new_shares_sum)
    }

    open spec fn refusal(&self) -> Error {
        Error::BadPayloadSize
    }

    fn get_size(&self) -> (r: usize) {
        20
    }

    fn to_bytes(&self, dst: &mut Vec<u8>) -> (r: Result<(), Error>) {
        push_u32(dst, self.channel_id);
        push_u32(dst, self.last_sequence_number);
        push_u32(dst, self.new_submits_accepted_count);
        push_u64(dst, self.new_shares_sum);
        assert(final(dst)@ =~= old(dst)@ + self.encoding());
        Ok(())
    }
}

impl Encodable for OpenExtendedMiningChannelSuccess {
    open spec fn encodable(&self) -> bool {
        self.target@.len() == 32 && self.extranonce_prefix@.len() <= 32
    }

    open spec fn encoding(&self) -> Seq<u8> {
        le32(self.request_id) + le32(self.channel_id) + self.target@ + le16(self.extranonce_size)
            + b0_255(self.extranonce_prefix@)
    }

    open spec fn refusal(&self) -> Error {
        if self.target@.len() != 32 {
            Error::ExpectedLen32(self.target@.len() as usize)
        } else {
            Error::ValueExceedsMaxSize(self.extranonce_prefix@.len() as usize)
        }
    }

    fn get_size(&self) -> (r: usize) {
        43 + self.extranonce_prefix.len()
    }

    fn to_bytes(&self, dst: &mut Vec<u8>) -> (r: Result<(), Error>) {
        if self.target.len() != 32 {
            return Err(Error::ExpectedLen32(self.target.len()));
        }
        if self.extranonce_prefix.len() > 32 {
            return Err(Error::ValueExceedsMaxSize(self.extranonce_prefix.len()));
        }
        push_u32(dst, self.request_id);
        push_u32(dst, self.channel_id);
        push_all(dst, &self.target);
        push_u16(dst, self.extranonce_size);
        push_b0_255(dst, &self.extranonce_prefix);
        assert(final(dst)@ =~= old(dst)@ + self.encoding());
        Ok(())
    }
}

/// Four bytes, least significant first, read back as a `u32`.
proof fn lemma_le32_of_bytes(b0: u8, b1: u8, b2: u8, b3: u8, v: u32)
    requires
        v == b0 as int + b1 as int * 0x100 + b2 as int * 0x10000 + b3 as int * 0x1000000,
    ensures
        le32(v) == seq![b0, b1, b2, b3],
{
    let x0 = b0 as int;
    let x1 = b1 as int;
    let x2 = b2 as int;
    let x3 = b3 as int;
    let w = v as int;
    assert(w % 0x100 == x0) by (nonlinear_arith)
        requires
            w == x0 + x1 * 0x100 + x2 * 0x10000 + x3 * 0x1000000,
            0 <= x0 < 0x100,
            0 <= x1 < 0x100,
            0 <= x2 < 0x100,
            0 <= x3 < 0x100,
    ;
    assert((w / 0x100) % 0x100 == x1) by (nonlinear_arith)
        requires
            w == x0 + x1 * 0x100 + x2 * 0x10000 + x3 * 0x1000000,
            0 <= x0 < 0x100,
            0 <= x1 < 0x100,
            0 <= x2 < 0x100,
            0 <= x3 < 0x100,
    ;
    assert((w / 0x10000) % 0x100 == x2) by (nonlinear_arith)
        requires
            w == x0 + x1 * 0x100 + x2 * 0x10000 + x3 * 0x1000000,
            0 <= x0 < 0x100,
            0 <= x1 < 0x100,
            0 <= x2 < 0x100,
            0 <= x3 < 0x100,
    ;
    assert(w / 0x1000000 == x3) by (nonlinear_arith)
        requires
            w == x0 + x1 * 0x100 + x2 * 0x10000 + x3 * 0x1000000,
            0 <= x0 < 0x100,
            0 <= x1 < 0x100,
            0 <= x2 < 0x100,
            0 <= x3 < 0x100,
    ;
    assert(le32(v) =~= seq![b0, b1, b2, b3]);
}

/// Two `u32`s with the same four bytes are equal.
proof fn lemma_le32_injective(a: u32, b: u32)
    requires
        le32(a) == le32(b),
    ensures
        a == b,
{
    assert(le32(a)[0] == le32(b)[0] && le32(a)[1] == le32(b)[1]);
    assert(le32(a)[2] == le32(b)[2] && le32(a)[3] == le32(b)[3]);
    let x = a as int;
    let y = b as int;
    assert(x == x % 0x100 + (x / 0x100) % 0x100 * 0x100 + (x / 0x10000) % 0x100 * 0x10000 + (x
        / 0x1000000) * 0x1000000) by (nonlinear_arith)
        requires
            0 <= x < 0x100000000,
    ;
    assert(y == y % 0x100 + (y / 0x100) % 0x100 * 0x100 + (y / 0x10000) % 0x100 * 0x10000 + (y
        / 0x1000000) * 0x1000000) by (nonlinear_arith)
        requires
            0 <= y < 0x100000000,
    ;
}

/// Two `u16`s with the same two bytes are equal.
proof fn lemma_le16_injective(a: u16, b: u16)
    requires
        le16(a) == le16(b),
    ensures
        a == b,
{
    assert(le16(a)[0] == le16(b)[0] && le16(a)[1] == le16(b)[1]);
    let x = a as int;
    let y = b as int;
    assert(x == x % 0x100 + (x / 0x100) * 0x100) by (nonlinear_arith)
        requires
            0 <= x,
    ;
    assert(y == y % 0x100 + (y / 0x100) * 0x100) by (nonlinear_arith)
        requires
            0 <= y,
    ;
}

/// Reads the `u32` written least significant byte first at `pos`.
fn read_u32(data: &[u8], pos: usize) -> (r: u32)
    requires
        pos + 4 <= data@.len(),
    ensures
        le32(r) == data@.subrange(pos as int, pos + 4),
{
    let b0 = data[pos];
    let b1 = data[pos + 1];
    let b2 = data[pos + 2];
    let b3 = data[pos + 3];
    let v: u32 = b0 as u32 + b1 as u32 * 0x100 + b2 as u32 * 0x10000 + b3 as u32 * 0x1000000;
    proof {
        lemma_le32_of_bytes(b0, b1, b2, b3, v);
        assert(data@.subrange(pos as int, pos + 4) =~= seq![b0, b1, b2, b3]);
    }
    v
}

impl Encodable for SubmitSharesExtended {
    open spec fn encodable(&self) -> bool {
        self.extranonce@.len() <= 32
    }

    open spec fn encoding(&self) -> Seq<u8> {
        le32(self.channel_id) + le32(self.sequence_number) + le32(self.job_id) + le32(self.nonce)
            + le32(self.ntime) + le32(self.version) + b0_255(self.extranonce@)
    }

    open spec fn refusal(&self) -> Error {
        Error::ValueExceedsMaxSize(self.extranonce@.len() as usize)
    }

    fn get_size(&self) -> (r: usize) {
        25 + self.extranonce.len()
    }

    fn to_bytes(&self, dst: &mut Vec<u8>) -> (r: Result<(), Error>) {
        if self.extranonce.len() > 32 {
            return Err(Error::ValueExceedsMaxSize(self.extranonce.len()));
        }
        push_u32(dst, self.channel_id);
        push_u32(dst, self.sequence_number);
        push_u32(dst, self.job_id);
        push_u32(dst, self.nonce);
        push_u32(dst, self.ntime);
        push_u32(dst, self.version);
        push_b0_255(dst, &self.extranonce);
        assert(final(dst)@ =~= old(dst)@ + self.encoding());
        Ok(())
    }
}

impl Decodable for SubmitSharesExtended {
    open spec fn same_value(&self, other: &Self) -> bool {
        &&& self.channel_id == other.channel_id
        &&& self.sequence_number == other.sequence_number
        &&& self.job_id == other.job_id
        &&& self.nonce == other.nonce
        &&& self.ntime == other.ntime
        &&& self.version == other.version
        &&& self.extranonce@ == other.extranonce@
    }

    fn from_bytes(data: &[u8]) -> (r: Result<Self, Error>) {
        if data.len() < 25 {
            return Err(Error::OutOfBound);
        }
        let len = data[24] as usize;
        if len > 32 {
            return Err(Error::ValueExceedsMaxSize(len));
        }
        if data.len() != 25 + len {
            return Err(Error::OutOfBound);
        }
        let channel_id = read_u32(data, 0);
        let sequence_number = read_u32(data, 4);
        let job_id = read_u32(data, 8);
        let nonce = read_u32(data, 12);
        let ntime = read_u32(data, 16);
        let version = read_u32(data, 20);
        let mut extranonce: Vec<u8> = Vec::new();
        let mut i: usize = 25;
        while i < data.len()
            invariant
                25 <= i <= data@.len(),
                extranonce@ == data@.subrange(25, i as int),
            decreases data@.len() - i,
        {
            extranonce.push(data[i]);
            assert(data@.subrange(25, i + 1) =~= data@.subrange(25, i as int).push(data@[i as int]));
            i = i + 1;
        }
        let m = SubmitSharesExtended {
            channel_id,
            sequence_number,
            job_id,
            nonce,
            ntime,
            version,
            extranonce,
        };
        assert(m.encoding() =~= data@);
        proof {
            assert forall|v: SubmitSharesExtended|
                v.encodable() && #[trigger] v.encoding() == data@ implies m.same_value(&v) by {
                let e = v.encoding();
                assert(e.subrange(0, 4) =~= le32(v.channel_id));
                assert(e.subrange(4, 8) =~= le32(v.sequence_number));
                assert(e.subrange(8, 12) =~= le32(v.job_id));
                assert(e.subrange(12, 16) =~= le32(v.nonce));
                assert(e.subrange(16, 20) =~= le32(v.ntime));
                assert(e.subrange(20, 24) =~= le32(v.version));
                assert(e.subrange(25, e.len() as int) =~= v.extranonce@);
                lemma_le32_injective(m.channel_id, v.channel_id);
                lemma_le32_injective(m.sequence_number, v.sequence_number);
                lemma_le32_injective(m.job_id, v.job_id);
                lemma_le32_injective(m.nonce, v.nonce);
                lemma_le32_injective(m.ntime, v.ntime);
                lemma_le32_injective(m.version, v.version);
            }
        }
        Ok(m)
    }
}

impl Encodable for SubmitSharesError {
    open spec fn encodable(&self) -> bool {
        error_code_bytes(self.error_code).len() <= 255
    }

    open spec fn encoding(&self) -> Seq<u8> {
        le32(self.channel_id) + le32(self.sequence_number) + b0_255(
            error_code_bytes(self.error_code),
        )
    }

    open spec fn refusal(&self) -> Error {
        Error::ValueExceedsMaxSize(error_code_bytes(self.error_code).len() as usize)
    }

    fn get_size(&self) -> (r: usize) {
        9 + self.error_code.to_bytes().len()
    }

    fn to_bytes(&self, dst: &mut Vec<u8>) -> (r: Result<(), Error>) {
        let code = self.error_code.to_bytes();
        if code.len() > 255 {
            return Err(Error::ValueExceedsMaxSize(code.len()));
        }
        push_u32(dst, self.channel_id);
        push_u32(dst, self.sequence_number);
        push_b0_255(dst, &code);
        assert(final(dst)@ =~= old(dst)@ + self.encoding());
        Ok(())
    }
}

impl Encodable for UpdateChannelError {
    open spec fn encodable(&self) -> bool {
        self.error_code@.len() <= 255
    }

    open spec fn encoding(&self) -> Seq<u8> {
        le32(self.channel_id) + b0_255(self.error_code@)
    }

    open spec fn refusal(&self) -> Error {
        Error::ValueExceedsMaxSize(self.error_code@.len() as usize)
    }

    fn get_size(&self) -> (r: usize) {
        5 + self.error_code.len()
    }

    fn to_bytes(&self, dst: &mut Vec<u8>) -> (r: Result<(), Error>) {
        if self.error_code.len() > 255 {
            return Err(Error::ValueExceedsMaxSize(self.error_code.len()));
        }
        push_u32(dst, self.channel_id);
        push_b0_255(dst, &self.error_code);
        assert(final(dst)@ =~= old(dst)@ + self.encoding());
        Ok(())
    }
}

/// Reads the `u16` written least significant byte first at `pos`.
fn read_u16(data: &[u8], pos: usize) -> (r: u16)
    requires
        pos + 2 <= data@.len(),
    ensures
        le16(r) == data@.subrange(pos as int, pos + 2),
{
    let b0 = data[pos];
    let b1 = data[pos + 1];
    let v: u16 = b0 as u16 + b1 as u16 * 0x100;
    proof {
        let w = v as int;
        assert(w % 0x100 == b0 as int && w / 0x100 == b1 as int) by (nonlinear_arith)
            requires
                w == b0 as int + b1 as int * 0x100,
                0 <= b0 < 0x100,
                0 <= b1 < 0x100,
        ;
        assert(data@.subrange(pos as int, pos + 2) =~= le16(v));
    }
    v
}

/// Copies `data[from..to]`.
fn read_bytes(data: &[u8], from: usize, to: usize) -> (r: Vec<u8>)
    requires
        from <= to <= data@.len(),
    ensures
        r@ == data@.subrange(from as int, to as int),
{
    let mut r: Vec<u8> = Vec::new();
    let mut i: usize = from;
    while i < to
        invariant
            from <= i <= to <= data@.len(),
            r@ == data@.subrange(from as int, i as int),
        decreases to - i,
    {
        r.push(data[i]);
        assert(data@.subrange(from as int, i + 1) =~= data@.subrange(from as int, i as int).push(
            data@[i as int],
        ));
        i = i + 1;
    }
    r
}

impl Encodable for OpenExtendedMiningChannel {
    open spec fn encodable(&self) -> bool {
        self.user_identity@.len() <= 255 && self.max_target@.len() == 32
    }

    open spec fn encoding(&self) -> Seq<u8> {
        le32(self.request_id) + b0_255(self.user_identity@) + le32(self.nominal_hash_rate)
            + self.max_target@ + le16(self.min_extranonce_size)
    }

    open spec fn refusal(&self) -> Error {
        if self.user_identity@.len() > 255 {
            Error::ValueExceedsMaxSize(self.user_identity@.len() as usize)
        } else {
            Error::ExpectedLen32(self.max_target@.len() as usize)
        }
    }

    fn get_size(&self) -> (r: usize) {
        43 + self.user_identity.len()
    }

    fn to_bytes(&self, dst: &mut Vec<u8>) -> (r: Result<(), Error>) {
        if self.user_identity.len() > 255 {
            return Err(Error::ValueExceedsMaxSize(self.user_identity.len()));
        }
        if self.max_target.len() != 32 {
            return Err(Error::ExpectedLen32(self.max_target.len()));
        }
        push_u32(dst, self.request_id);
        push_b0_255(dst, &self.user_identity);
        push_u32(dst, self.nominal_hash_rate);
        push_all(dst, &self.max_target);
        push_u16(dst, self.min_extranonce_size);
        assert(final(dst)@ =~= old(dst)@ + self.encoding());
        Ok(())
    }
}

impl Decodable for OpenExtendedMiningChannel {
    open spec fn same_value(&self, other: &Self) -> bool {
        &&& self.request_id == other.request_id
        &&& self.user_identity@ == other.user_identity@
        &&& self.nominal_hash_rate == other.nominal_hash_rate
        &&& self.max_target@ == other.max_target@
        &&& self.min_extranonce_size == other.min_extranonce_size
    }

    fn from_bytes(data: &[u8]) -> (r: Result<Self, Error>) {
        if data.len() < 5 {
            return Err(Error::OutOfBound);
        }
        let id_len = data[4] as usize;
        if data.len() != 43 + id_len {
            return Err(Error::OutOfBound);
        }
        let request_id = read_u32(data, 0);
        let user_identity = read_bytes(data, 5, 5 + id_len);
        let nominal_hash_rate = read_u32(data, 5 + id_len);
        let max_target = read_bytes(data, 9 + id_len, 41 + id_len);
        let min_extranonce_size = read_u16(data, 41 + id_len);
        let m = OpenExtendedMiningChannel {
            request_id,
            user_identity,
            nominal_hash_rate,
            max_target,
            min_extranonce_size,
        };
        assert(m.encoding() =~= data@);
        proof {
            assert forall|v: OpenExtendedMiningChannel|
                v.encodable() && #[trigger] v.encoding() == data@ implies m.same_value(&v) by {
                let e = v.encoding();
                let n = v.user_identity@.len() as int;
                assert(e[4] == n as u8);
                assert(n == id_len);
                assert(e.subrange(0, 4) =~= le32(v.request_id));
                assert(e.subrange(5, 5 + n) =~= v.user_identity@);
                assert(e.subrange(5 + n, 9 + n) =~= le32(v.nominal_hash_rate));
                assert(e.subrange(9 + n, 41 + n) =~= v.max_target@);
                assert(e.subrange(41 + n, 43 + n) =~= le16(v.min_extranonce_size));
                lemma_le32_injective(m.request_id, v.request_id);
                lemma_le32_injective(m.nominal_hash_rate, v.nominal_hash_rate);
                lemma_le16_injective(m.min_extranonce_size, v.min_extranonce_size);
            }
        }
        Ok(m)
    }
}

/// Message type of `OpenExtendedMiningChannel`.
pub const MESSAGE_TYPE_OPEN_EXTENDED_MINING_CHANNEL: u8 = 0x13;

/// Message type of `OpenExtendedMiningChannelSuccess`.
pub const MESSAGE_TYPE_OPEN_EXTENDED_MINING_CHANNEL_SUCCESS: u8 = 0x14;

/// Message type of `SubmitSharesExtended`.
pub const MESSAGE_TYPE_SUBMIT_SHARES_EXTENDED: u8 = 0x1b;

/// Message type of `SubmitSharesSuccess`.
pub const MESSAGE_TYPE_SUBMIT_SHARES_SUCCESS: u8 = 0x1c;

/// Message type of `SubmitSharesError`.
pub const MESSAGE_TYPE_SUBMIT_SHARES_ERROR: u8 = 0x1d;

/// Message type of `NewExtendedMiningJob`.
pub const MESSAGE_TYPE_NEW_EXTENDED_MINING_JOB: u8 = 0x1f;

/// Message type of `SetNewPrevHash` on the mining protocol.
pub const MESSAGE_TYPE_MINING_SET_NEW_PREV_HASH: u8 = 0x20;

/// The message type of a mining message sent to a downstream.
pub open spec fn spec_message_type(m: Mining) -> u8 {
    match m {
        Mining::NewExtendedMiningJob(_) => MESSAGE_TYPE_NEW_EXTENDED_MINING_JOB,
        Mining::SetNewPrevHash(_) => MESSAGE_TYPE_MINING_SET_NEW_PREV_HASH,
        Mining::OpenExtendedMiningChannelSuccess(_) => MESSAGE_TYPE_OPEN_EXTENDED_MINING_CHANNEL_SUCCESS,
        Mining::SubmitSharesSuccess(_) => MESSAGE_TYPE_SUBMIT_SHARES_SUCCESS,
        Mining::SubmitSharesError(_) => MESSAGE_TYPE_SUBMIT_SHARES_ERROR,
    }
}

/// The encoding of the message inside `m`, if it fits its wire types.
pub open spec fn mining_encoding(m: Mining) -> Option<Seq<u8>> {
    match m {
        Mining::NewExtendedMiningJob(x) => if x.encodable() { Some(x.encoding()) } else { None },
        Mining::SetNewPrevHash(x) => if x.encodable() { Some(x.encoding()) } else { None },
        Mining::OpenExtendedMiningChannelSuccess(x) => if x.encodable() {
            Some(x.encoding())
        } else {
            None
        },
        Mining::SubmitSharesSuccess(x) => if x.encodable() { Some(x.encoding()) } else { None },
        Mining::SubmitSharesError(x) => if x.encodable() { Some(x.encoding()) } else { None },
    }
}

/// The message type and payload of a mining message for a downstream.
pub fn encode_mining(m: Mining) -> (r: Result<(u8, Vec<u8>), Error>)
    ensures
        r is Ok == mining_encoding(m) is Some,
        r is Ok ==> r->Ok_0.0 == spec_message_type(m) && r->Ok_0.1@ == mining_encoding(
            m,
        )->Some_0,
{
    let ghost m0 = m;
    match m {
        Mining::NewExtendedMiningJob(x) => {
            let b = to_bytes(x)?;
            Ok((MESSAGE_TYPE_NEW_EXTENDED_MINING_JOB, b))
        },
        Mining::SetNewPrevHash(x) => {
            let b = to_bytes(x)?;
            Ok((MESSAGE_TYPE_MINING_SET_NEW_PREV_HASH, b))
        },
        Mining::OpenExtendedMiningChannelSuccess(x) => {
            let b = to_bytes(x)?;
            Ok((MESSAGE_TYPE_OPEN_EXTENDED_MINING_CHANNEL_SUCCESS, b))
        },
        Mining::SubmitSharesSuccess(x) => {
            let b = to_bytes(x)?;
            Ok((MESSAGE_TYPE_SUBMIT_SHARES_SUCCESS, b))
        },
        Mining::SubmitSharesError(x) => {
            let b = to_bytes(x)?;
            Ok((MESSAGE_TYPE_SUBMIT_SHARES_ERROR, b))
        },
    }
}

} // verus!
