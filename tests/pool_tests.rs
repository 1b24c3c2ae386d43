use mining_pool::job::NewExtendedMiningJob;
use mining_pool::messages::{Mining, SubmitSharesExtended};
use mining_pool::pool::{Pool, PrevHashStep, TemplatePrevHash};

fn extended_job(channel_id: u32, job_id: u32) -> NewExtendedMiningJob {
    NewExtendedMiningJob {
        channel_id,
        job_id,
        future_job: true,
        version: 1,
        version_rolling_allowed: true,
        merkle_path: vec![],
        coinbase_tx_prefix: vec![],
        coinbase_tx_suffix: vec![],
    }
}

fn new_prev_hash() -> TemplatePrevHash {
    TemplatePrevHash {
        template_id: 1,
        prev_hash: vec![6u8; 32],
        header_timestamp: 0,
        n_bits: 0x207fffff,
    }
}

#[test]
fn prev_hash_waits_for_template() {
    let mut pool = Pool::new();
    assert!(!pool.new_template_processed());
    let step = pool.on_new_prev_hash(new_prev_hash(), vec![]).ok().unwrap();
    assert!(matches!(step, PrevHashStep::Wait));
    assert!(!pool.new_template_processed());
    let out = pool.on_new_template(1, vec![]);
    assert!(out.is_empty());
    assert!(pool.new_template_processed());
    let step = pool.on_new_prev_hash(new_prev_hash(), vec![]).ok().unwrap();
    assert!(matches!(step, PrevHashStep::Send(v) if v.is_empty()));
    assert!(!pool.new_template_processed());
    let step = pool.on_new_prev_hash(new_prev_hash(), vec![]).ok().unwrap();
    assert!(matches!(step, PrevHashStep::Wait));
}

#[test]
fn disconnect_removes_downstream() {
    let mut pool = Pool::new();
    let (id, out) = pool.add_downstream(false, vec![], 0).ok().unwrap();
    assert!(out.is_empty());
    assert_eq!(pool.downstream_count(), 1);
    assert!(pool.remove_downstream(id));
    assert_eq!(pool.downstream_count(), 0);
    assert!(!pool.remove_downstream(id));
}

#[test]
fn two_downstreams_one_template() {
    let mut pool = Pool::new();
    let (a, _) = pool.add_downstream(false, vec![], 0).ok().unwrap();
    let (b, _) = pool.add_downstream(false, vec![], 0).ok().unwrap();
    assert_ne!(a, b);
    let pa = pool.open_extended_channel(a, 1, vec![0xff; 32]).ok().unwrap();
    let pb = pool.open_extended_channel(b, 1, vec![0xff; 32]).ok().unwrap();
    assert_eq!(pa.extranonce_prefix.len(), 16);
    assert_ne!(pa.extranonce_prefix[0..16], pb.extranonce_prefix[0..16]);
    let out = pool.on_new_template(5, vec![(a, extended_job(a, 10)), (b, extended_job(b, 11))]);
    assert_eq!(out.len(), 2);
    let ids: Vec<(u32, u32)> = out
        .iter()
        .map(|(d, m)| match m {
            Mining::NewExtendedMiningJob(j) => (*d, j.job_id),
            _ => panic!("expected a job"),
        })
        .collect();
    assert!(ids.contains(&(a, 10)));
    assert!(ids.contains(&(b, 11)));
    let step = pool.on_new_prev_hash(new_prev_hash(), vec![(a, 10), (b, 11)]).ok().unwrap();
    match step {
        PrevHashStep::Send(v) => {
            assert_eq!(v.len(), 2);
            for (_, m) in &v {
                assert!(matches!(m, Mining::SetNewPrevHash(p) if p.prev_hash == vec![6u8; 32]));
            }
        }
        PrevHashStep::Wait => panic!("barrier should be open"),
    }
    assert_eq!(pool.downstream(a).unwrap().future_jobs_len(), 0);
}

#[test]
fn standard_channels_are_refused() {
    let mut pool = Pool::new();
    assert_eq!(
        pool.add_downstream(true, vec![], 0).err(),
        Some(mining_pool::errors::Error::StandardChannelNotSupported)
    );
    assert_eq!(pool.downstream_count(), 0);
}

#[test]
fn late_downstream_gets_last_prev_hash() {
    let mut pool = Pool::new();
    pool.on_new_template(1, vec![]);
    pool.on_new_prev_hash(new_prev_hash(), vec![]).ok().unwrap();
    assert_eq!(pool.last_prev_hash_template_id(), Some(1));
    let (id, out) = pool.add_downstream(false, vec![(extended_job(1, 4), 1)], 4).ok().unwrap();
    assert_eq!(out.len(), 2);
    assert!(matches!(&out[1], Mining::SetNewPrevHash(p) if p.job_id == 4 && p.channel_id == id));
    assert_eq!(pool.next_group_id(), Ok(id + 1));
}

#[test]
fn shares_are_routed_to_their_downstream() {
    let mut pool = Pool::new();
    let (a, _) = pool.add_downstream(false, vec![], 0).ok().unwrap();
    let cid = pool.open_extended_channel(a, 1, vec![0xff; 32]).ok().unwrap().channel_id;
    let m = SubmitSharesExtended {
        channel_id: cid,
        sequence_number: 1,
        job_id: 1,
        nonce: 0,
        ntime: 0,
        version: 1,
        extranonce: vec![0u8; 16],
    };
    assert_eq!(
        pool.handle_submit_shares_extended(a + 1, &m).err(),
        Some(mining_pool::errors::Error::DownstreamNotFound(a + 1))
    );
    let (reply, solution) = pool.handle_submit_shares_extended(a, &m).ok().unwrap();
    assert!(solution.is_none());
    assert!(matches!(reply, Mining::SubmitSharesError(_)));
    assert_eq!(
        pool.open_extended_channel(a + 1, 1, vec![0xff; 32]).err(),
        Some(mining_pool::errors::Error::DownstreamNotFound(a + 1))
    );
}
