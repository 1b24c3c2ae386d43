use mining_pool::codec::{
    encode_mining, from_bytes, to_bytes, to_writer, MESSAGE_TYPE_MINING_SET_NEW_PREV_HASH,
};
use mining_pool::downstream::SetNewPrevHash;
use mining_pool::errors::Error;
use mining_pool::job::NewExtendedMiningJob;
use mining_pool::messages::{
    Mining, OpenExtendedMiningChannel, ShareErrorCode, SubmitSharesError, SubmitSharesExtended,
    UpdateChannelError,
};

fn prev_hash_message(len: usize) -> SetNewPrevHash {
    SetNewPrevHash {
        channel_id: 0x01020304,
        job_id: 5,
        prev_hash: vec![0xaa; len],
        min_ntime: 0,
        nbits: 0x207fffff,
    }
}

#[test]
fn set_new_prev_hash_bytes() {
    let bytes = to_bytes(prev_hash_message(32)).unwrap();
    let mut expected = vec![4, 3, 2, 1, 5, 0, 0, 0];
    expected.extend(vec![0xaa; 32]);
    expected.extend(vec![0, 0, 0, 0, 0xff, 0xff, 0x7f, 0x20]);
    assert_eq!(bytes, expected);
}

#[test]
fn encoding_refuses_short_hash() {
    assert_eq!(to_bytes(prev_hash_message(31)), Err(Error::ExpectedLen32(31)));
}

#[test]
fn writer_needs_room() {
    let mut small = vec![0u8; 10];
    assert_eq!(to_writer(prev_hash_message(32), &mut small), Err(Error::WriteError(48, 10)));
    assert_eq!(small, vec![0u8; 10]);
    let mut big = vec![9u8; 50];
    assert_eq!(to_writer(prev_hash_message(32), &mut big), Ok(()));
    assert_eq!(big[0..4], [4, 3, 2, 1]);
    assert_eq!(big[48..50], [9, 9]);
}

#[test]
fn share_submission_round_trip() {
    let m = SubmitSharesExtended {
        channel_id: 7,
        sequence_number: 0x01000000,
        job_id: 3,
        nonce: 0xdeadbeef,
        ntime: 17,
        version: 0x20000000,
        extranonce: vec![1, 2, 3],
    };
    let bytes = to_bytes(m).unwrap();
    assert_eq!(bytes.len(), 28);
    assert_eq!(bytes[12..16], [0xef, 0xbe, 0xad, 0xde]);
    let back: SubmitSharesExtended = from_bytes(&bytes).ok().unwrap();
    assert_eq!(back.nonce, 0xdeadbeef);
    assert_eq!(back.sequence_number, 0x01000000);
    assert_eq!(back.extranonce, vec![1, 2, 3]);
}

#[test]
fn share_submission_cut_short() {
    let r: Result<SubmitSharesExtended, Error> = from_bytes(&[0u8; 10]);
    assert_eq!(r.err(), Some(Error::OutOfBound));
}

#[test]
fn share_error_carries_code_text() {
    let m = SubmitSharesError {
        channel_id: 1,
        sequence_number: 2,
        error_code: ShareErrorCode::StaleShare,
    };
    let bytes = to_bytes(m).unwrap();
    let mut expected = vec![1, 0, 0, 0, 2, 0, 0, 0, 11];
    expected.extend(b"stale-share".iter());
    assert_eq!(bytes, expected);
    assert_eq!(ShareErrorCode::DifficultyTooLow.to_bytes(), b"difficulty-too-low".to_vec());
}

#[test]
fn channel_open_round_trip() {
    let m = OpenExtendedMiningChannel {
        request_id: 9,
        user_identity: b"miner".to_vec(),
        nominal_hash_rate: 0x41200000,
        max_target: vec![0xff; 32],
        min_extranonce_size: 0x0102,
    };
    let bytes = to_bytes(m).unwrap();
    assert_eq!(bytes.len(), 48);
    assert_eq!(bytes[46..48], [2, 1]);
    let back: OpenExtendedMiningChannel = from_bytes(&bytes).ok().unwrap();
    assert_eq!(back.user_identity, b"miner".to_vec());
    assert_eq!(back.nominal_hash_rate, 0x41200000);
    assert_eq!(back.max_target, vec![0xff; 32]);
    assert_eq!(back.min_extranonce_size, 0x0102);
}

#[test]
fn update_channel_error_bytes() {
    let m = UpdateChannelError { channel_id: 3, error_code: b"invalid-channel-id".to_vec() };
    let bytes = to_bytes(m).unwrap();
    assert_eq!(bytes[0..5], [3, 0, 0, 0, 18]);
    assert_eq!(bytes.len(), 23);
}

#[test]
fn new_job_bytes() {
    let j = NewExtendedMiningJob {
        channel_id: 1,
        job_id: 2,
        future_job: true,
        version: 3,
        version_rolling_allowed: false,
        merkle_path: vec![vec![7u8; 32]],
        coinbase_tx_prefix: vec![1, 2],
        coinbase_tx_suffix: vec![],
    };
    let bytes = to_bytes(j).unwrap();
    let mut expected = vec![1, 0, 0, 0, 2, 0, 0, 0, 1, 3, 0, 0, 0, 0, 1];
    expected.extend(vec![7u8; 32]);
    expected.extend(vec![2, 0, 1, 2, 0, 0]);
    assert_eq!(bytes, expected);
    let bad = NewExtendedMiningJob {
        channel_id: 1,
        job_id: 2,
        future_job: true,
        version: 3,
        version_rolling_allowed: false,
        merkle_path: vec![vec![7u8; 31]],
        coinbase_tx_prefix: vec![],
        coinbase_tx_suffix: vec![],
    };
    assert!(to_bytes(bad).is_err());
}

#[test]
fn raw_bytes_encode_as_themselves() {
    assert_eq!(to_bytes(vec![1u8, 2, 3]), Ok(vec![1, 2, 3]));
}

#[test]
fn mining_message_framing() {
    let (t, payload) = encode_mining(Mining::SetNewPrevHash(prev_hash_message(32))).ok().unwrap();
    assert_eq!(t, MESSAGE_TYPE_MINING_SET_NEW_PREV_HASH);
    assert_eq!(payload.len(), 48);
    assert!(encode_mining(Mining::SetNewPrevHash(prev_hash_message(1))).is_err());
}
