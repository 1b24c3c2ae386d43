use mining_pool::downstream::{Downstream, SetNewPrevHash};
use mining_pool::errors::Error;
use mining_pool::extranonce::ExtendedExtranonce;
use mining_pool::job::{Job, NewExtendedMiningJob, VelideateTargetResult};
use mining_pool::messages::{Mining, ShareErrorCode, SubmitSharesExtended};

fn extended_job(job_id: u32, future_job: bool) -> NewExtendedMiningJob {
    NewExtendedMiningJob {
        channel_id: 1,
        job_id,
        future_job,
        version: 1,
        version_rolling_allowed: true,
        merkle_path: vec![],
        coinbase_tx_prefix: vec![],
        coinbase_tx_suffix: vec![],
    }
}

fn prev_hash(job_id: u32, hash: Vec<u8>, nbits: u32) -> SetNewPrevHash {
    SetNewPrevHash { channel_id: 1, job_id, prev_hash: hash, min_ntime: 0, nbits }
}

fn with_channel() -> (Downstream, ExtendedExtranonce, u32) {
    let (d, out) = Downstream::new(1, vec![], None).ok().unwrap();
    assert!(out.is_empty());
    let mut d = d;
    let mut g = ExtendedExtranonce::new(0..0, 0..16, 16..32);
    let ok = d.open_extended_channel(&mut g, 5, vec![0xff; 32]).ok().unwrap();
    assert_eq!(ok.request_id, 5);
    assert_eq!(ok.extranonce_size, 16);
    (d, g, ok.channel_id)
}

#[test]
fn future_job_activation() {
    let (mut d, _g, cid) = with_channel();
    assert!(matches!(d.job_of(cid), Some(Job::Partial(_))));
    let sent = d.on_new_extended_job(extended_job(7, true), 42).ok().unwrap();
    assert_eq!(sent.job_id, 7);
    assert_eq!(d.future_jobs_len(), 1);
    let h = vec![2u8; 32];
    let msg = d.on_new_prev_hash_sync(prev_hash(7, h.clone(), 0x207fffff)).ok().unwrap();
    assert_eq!(msg.job_id, 7);
    assert_eq!(d.future_jobs_len(), 0);
    assert_eq!(d.last_prev_hash(), Some(h.clone()));
    assert_eq!(d.last_nbits(), Some(0x207fffff));
    match d.job_of(cid) {
        Some(Job::Complete(c)) => {
            assert_eq!(c.prev_hash, h);
            assert_eq!(c.nbits, 0x207fffff);
            assert_eq!(c.template_id, 42);
            assert_eq!(c.new_shares_sum, 0);
        }
        _ => panic!("expected a complete job"),
    }
}

#[test]
fn prev_hash_clears_future_jobs_without_activation() {
    let (mut d, _g, cid) = with_channel();
    d.on_new_extended_job(extended_job(7, true), 42).ok().unwrap();
    d.on_new_extended_job(extended_job(8, true), 43).ok().unwrap();
    assert_eq!(d.future_jobs_len(), 2);
    d.on_new_prev_hash_sync(prev_hash(99, vec![2u8; 32], 1)).ok().unwrap();
    assert_eq!(d.future_jobs_len(), 0);
    assert!(matches!(d.job_of(cid), Some(Job::Partial(_))));
}

#[test]
fn same_future_job_id_replaces() {
    let (mut d, _g, _cid) = with_channel();
    d.on_new_extended_job(extended_job(7, true), 42).ok().unwrap();
    d.on_new_extended_job(extended_job(7, true), 43).ok().unwrap();
    assert_eq!(d.future_jobs_len(), 1);
}

#[test]
fn prev_hash_of_wrong_length_is_refused() {
    let (mut d, _g, _cid) = with_channel();
    let r = d.on_new_prev_hash_sync(prev_hash(7, vec![2u8; 31], 1));
    assert_eq!(r.err(), Some(Error::ExpectedLen32(31)));
}

#[test]
fn active_job_needs_a_prev_hash() {
    let (mut d, _g, _cid) = with_channel();
    let r = d.on_new_extended_job(extended_job(3, false), 1);
    assert_eq!(r.err(), Some(Error::PrevHashUnknown));
}

#[test]
fn active_job_updates_channels() {
    let (mut d, _g, cid) = with_channel();
    d.on_new_prev_hash_sync(prev_hash(1, vec![4u8; 32], 0x1d00ffff)).ok().unwrap();
    d.on_new_extended_job(extended_job(3, false), 77).ok().unwrap();
    match d.job_of(cid) {
        Some(Job::Complete(c)) => {
            assert_eq!(c.template_id, 77);
            assert_eq!(c.prev_hash, vec![4u8; 32]);
        }
        _ => panic!("expected a complete job"),
    }
}

#[test]
fn check_target_errors() {
    let (mut d, _g, cid) = with_channel();
    assert_eq!(d.check_target(cid + 1, 0, 1, 0, None).err(), Some(Error::ChannelNotFound(cid + 1)));
    assert_eq!(d.check_target(cid, 0, 1, 0, None).err(), Some(Error::JobNotComplete(cid)));
    d.on_new_extended_job(extended_job(7, true), 42).ok().unwrap();
    d.on_new_prev_hash_sync(prev_hash(7, vec![1u8; 32], 0x207fffff)).ok().unwrap();
    assert_eq!(
        d.check_target(cid, 0, 1, 0, Some(&[0u8; 33])).err(),
        Some(Error::ExtranonceTooLong(33))
    );
}

#[test]
fn block_found_demotes_job() {
    let mut d = Downstream::new(1, vec![], None).ok().unwrap().0;
    let mut g = ExtendedExtranonce::new(0..0, 0..0, 0..32);
    assert!(d.open_extended_channel(&mut g, 1, vec![0xff; 32]).is_err());
    let mut g = ExtendedExtranonce::new(0..0, 0..1, 1..32);
    let cid = d.open_extended_channel(&mut g, 1, vec![0xff; 32]).ok().unwrap().channel_id;
    d.on_new_extended_job(extended_job(7, true), 42).ok().unwrap();
    d.on_new_prev_hash_sync(prev_hash(7, vec![1u8; 32], 0x207fffff)).ok().unwrap();
    let mut found = false;
    for nonce in 0..64u32 {
        if let Ok(VelideateTargetResult::LessThanBitcoinTarget(_, _, sol)) =
            d.check_target(cid, nonce, 1, 0, None)
        {
            assert_eq!(sol.template_id, 42);
            found = true;
            break;
        }
    }
    assert!(found);
    assert!(matches!(d.job_of(cid), Some(Job::Partial(_))));
}

#[test]
fn new_downstream_sends_jobs_then_prev_hash() {
    let jobs = vec![(extended_job(1, false), 10), (extended_job(2, true), 11)];
    let (d, out) = Downstream::new(3, jobs, Some(prev_hash(2, vec![5u8; 32], 9))).ok().unwrap();
    assert_eq!(d.id(), 3);
    assert_eq!(out.len(), 3);
    assert!(matches!(&out[0], Mining::NewExtendedMiningJob(j) if j.job_id == 1));
    assert!(matches!(&out[1], Mining::NewExtendedMiningJob(j) if j.job_id == 2 && j.future_job));
    assert!(matches!(&out[2], Mining::SetNewPrevHash(p) if p.job_id == 2));
    assert_eq!(d.future_jobs_len(), 0);
    let bad = Downstream::new(3, vec![], Some(prev_hash(2, vec![5u8; 3], 9)));
    assert_eq!(bad.err().map(|e| e), Some(Error::ExpectedLen32(3)));
}

#[test]
fn share_on_unknown_channel_is_refused() {
    let (mut d, _g, cid) = with_channel();
    let m = SubmitSharesExtended {
        channel_id: cid + 5,
        sequence_number: 4,
        job_id: 1,
        nonce: 0,
        ntime: 0,
        version: 1,
        extranonce: vec![0u8; 16],
    };
    let (reply, solution) = d.handle_submit_shares_extended(&m);
    assert!(solution.is_none());
    assert!(matches!(reply, Mining::SubmitSharesError(e)
        if e.error_code == ShareErrorCode::InvalidChannelId && e.sequence_number == 4));
    let m2 = SubmitSharesExtended { channel_id: cid, ..m };
    let (reply, _) = d.handle_submit_shares_extended(&m2);
    assert!(matches!(reply, Mining::SubmitSharesError(e)
        if e.error_code == ShareErrorCode::StaleShare));
}

#[test]
fn accepted_share_is_acknowledged() {
    let (mut d, _g, cid) = with_channel();
    d.on_new_extended_job(extended_job(7, true), 42).ok().unwrap();
    d.on_new_prev_hash_sync(prev_hash(7, vec![1u8; 32], 0x1d00ffff)).ok().unwrap();
    let m = SubmitSharesExtended {
        channel_id: cid,
        sequence_number: 8,
        job_id: 7,
        nonce: 1,
        ntime: 0,
        version: 1,
        extranonce: vec![3u8; 16],
    };
    let (reply, solution) = d.handle_submit_shares_extended(&m);
    assert!(solution.is_none());
    assert!(matches!(reply, Mining::SubmitSharesSuccess(s)
        if s.new_shares_sum == 1 && s.last_sequence_number == 8 && s.channel_id == cid));
}

#[test]
fn new_downstream_without_prev_hash_keeps_future_jobs_waiting() {
    let jobs = vec![
        (extended_job(1, true), 10),
        (extended_job(2, false), 11),
        (extended_job(3, true), 12),
    ];
    let (d, out) = Downstream::new(4, jobs, None).ok().unwrap();
    assert_eq!(out.len(), 3);
    assert_eq!(d.future_jobs_len(), 2);
    assert_eq!(d.last_prev_hash(), None);
    assert_eq!(d.last_nbits(), None);
    assert_eq!(d.channel_count(), 0);
}
