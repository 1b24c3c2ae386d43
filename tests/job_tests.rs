use mining_pool::job::{
    CompleteJob, Job, NewExtendedMiningJob, PartialJob, VelideateTargetResult,
};
use mining_pool::merkle::merkle_root_from_path;

fn unhex(s: &str) -> Vec<u8> {
    (0..s.len())
        .step_by(2)
        .map(|i| u8::from_str_radix(&s[i..i + 2], 16).unwrap())
        .collect()
}

fn extended_job(job_id: u32, future_job: bool) -> NewExtendedMiningJob {
    NewExtendedMiningJob {
        channel_id: 1,
        job_id,
        future_job,
        version: 1,
        version_rolling_allowed: true,
        merkle_path: vec![],
        coinbase_tx_prefix: vec![],
        coinbase_tx_suffix: vec![],
    }
}

fn complete(target: Vec<u8>, nbits: u32, prev_hash: Vec<u8>, template_id: u64) -> CompleteJob {
    let partial = PartialJob { target, extranonce: vec![0u8; 32] };
    partial.to_complete_standard_job(&extended_job(1, false), nbits, &prev_hash, template_id)
}

#[test]
fn merkle_root_of_lone_coinbase() {
    let root = merkle_root_from_path(&vec![], &vec![], &vec![0u8; 32], &vec![]);
    assert_eq!(
        root,
        unhex("2b32db6c2c0a6235fb1397e8225ea85e0f0e6e8c7b126d0016ccbde0e667151e")
    );
}

#[test]
fn merkle_root_with_one_sibling() {
    let root = merkle_root_from_path(&vec![], &vec![], &vec![0u8; 32], &vec![vec![1u8; 32]]);
    assert_eq!(
        root,
        unhex("5b2c2c146f5dafc15a82a4cff89ed1208353a9eb2a0554ad8fbb191da97f5cf7")
    );
}

#[test]
fn share_below_downstream_target_finds_block_on_regtest() {
    let mut job = complete(vec![0xff; 32], 0x207fffff, vec![1u8; 32], 9);
    match job.validate_target(0, 1, 0, None) {
        VelideateTargetResult::LessThanBitcoinTarget(hash, sum, solution) => {
            assert_eq!(
                hash,
                unhex("c9b7e110b2dd2d9257d36bf86bc1df032f55a6ffcaf1f28d81b3d67fee35cf66")
            );
            assert_eq!(sum, 1);
            assert_eq!(solution.template_id, 9);
            assert_eq!(solution.version, 1);
            assert_eq!(solution.header_timestamp, 0);
            assert_eq!(solution.header_nonce, 0);
            assert_eq!(solution.coinbase_tx, vec![0u8; 32]);
        }
        _ => panic!("expected a block"),
    }
    assert_eq!(job.new_shares_sum, 1);
}

#[test]
fn share_above_both_targets_is_invalid() {
    let mut target = vec![0u8; 32];
    target[31] = 1;
    let mut job = complete(target, 0x1d00ffff, vec![1u8; 32], 9);
    match job.validate_target(0x12345678, 1, 0, None) {
        VelideateTargetResult::Invalid(hash) => assert_eq!(
            hash,
            unhex("08d9930f52349bc80a30fed0fd6c05f6103ef7dae7df3b12d7cedb609b0e8e6f")
        ),
        _ => panic!("expected an invalid share"),
    }
    assert_eq!(job.new_shares_sum, 0);
}

#[test]
fn share_below_downstream_target_only() {
    let mut job = complete(vec![0xff; 32], 0x1d00ffff, vec![1u8; 32], 9);
    match job.validate_target(0x12345678, 1, 0, None) {
        VelideateTargetResult::LessThanDownstreamTarget(_, sum) => assert_eq!(sum, 1),
        _ => panic!("expected a downstream share"),
    }
    match job.validate_target(0x12345678, 1, 0, None) {
        VelideateTargetResult::LessThanDownstreamTarget(_, sum) => assert_eq!(sum, 2),
        _ => panic!("expected a downstream share"),
    }
    assert_eq!(job.new_shares_sum, 2);
}

#[test]
fn miner_extranonce_part_changes_the_hash() {
    let mut job = complete(vec![0xff; 32], 0x1d00ffff, vec![1u8; 32], 9);
    let same = match job.validate_target(7, 1, 0, Some(&[0u8; 16])) {
        VelideateTargetResult::LessThanDownstreamTarget(h, _) => h,
        _ => panic!("expected a downstream share"),
    };
    let cached = match job.validate_target(7, 1, 0, None) {
        VelideateTargetResult::LessThanDownstreamTarget(h, _) => h,
        _ => panic!("expected a downstream share"),
    };
    let other = match job.validate_target(7, 1, 0, Some(&[1u8; 16])) {
        VelideateTargetResult::LessThanDownstreamTarget(h, _) => h,
        _ => panic!("expected a downstream share"),
    };
    assert_eq!(same, cached);
    assert_ne!(same, other);
}

#[test]
fn partial_and_complete_jobs_derive_the_same_merkle_root() {
    let mut new_job = extended_job(3, false);
    new_job.coinbase_tx_prefix = vec![1, 2, 3];
    new_job.coinbase_tx_suffix = vec![4, 5];
    new_job.merkle_path = vec![vec![7u8; 32], vec![8u8; 32]];
    let partial = PartialJob { target: vec![0xff; 32], extranonce: vec![5u8; 32] };
    let from_partial = partial.to_complete_standard_job(&new_job, 0x207fffff, &vec![1u8; 32], 4);
    let old = PartialJob { target: vec![0xff; 32], extranonce: vec![5u8; 32] }
        .to_complete_standard_job(&extended_job(1, false), 0x1d00ffff, &vec![2u8; 32], 1);
    let from_complete = old.update_job(&new_job, 0x207fffff, &vec![1u8; 32], 4);
    assert_eq!(from_partial.merkle_root, from_complete.merkle_root);
    let expected = merkle_root_from_path(
        &vec![1, 2, 3],
        &vec![4, 5],
        &vec![5u8; 32],
        &vec![vec![7u8; 32], vec![8u8; 32]],
    );
    assert_eq!(from_partial.merkle_root, expected);
}

#[test]
fn update_job_resets_share_count() {
    let mut c = complete(vec![0xff; 32], 0x1d00ffff, vec![1u8; 32], 9);
    let _ = c.validate_target(1, 1, 0, None);
    assert_eq!(c.new_shares_sum, 1);
    let mut job = Job::Complete(c);
    job.update_job(&extended_job(2, false), 0x1d00ffff, &vec![3u8; 32], 10);
    match job {
        Job::Complete(c) => {
            assert_eq!(c.new_shares_sum, 0);
            assert_eq!(c.template_id, 10);
            assert_eq!(c.prev_hash, vec![3u8; 32]);
            assert_eq!(c.target, vec![0xff; 32]);
        }
        Job::Partial(_) => panic!("expected a complete job"),
    }
}

#[test]
fn partial_job_becomes_complete_then_partial_again() {
    let mut job = Job::new(vec![0xff; 32], vec![0u8; 32]);
    job.update_job(&extended_job(2, false), 0x207fffff, &vec![1u8; 32], 10);
    assert!(matches!(job, Job::Complete(_)));
    job.make_partial();
    match job {
        Job::Partial(p) => {
            assert_eq!(p.target, vec![0xff; 32]);
            assert_eq!(p.extranonce, vec![0u8; 32]);
        }
        Job::Complete(_) => panic!("expected a partial job"),
    }
}

#[test]
fn coinbase_is_prefix_extranonce_suffix() {
    let mut new_job = extended_job(3, false);
    new_job.coinbase_tx_prefix = vec![1, 2];
    new_job.coinbase_tx_suffix = vec![9];
    let c = PartialJob { target: vec![0xff; 32], extranonce: vec![5, 6] }
        .to_complete_standard_job(&new_job, 0, &vec![0u8; 32], 0);
    assert_eq!(c.get_coinbase(), vec![1, 2, 5, 6, 9]);
}
