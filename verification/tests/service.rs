use focil::primitives::Hash256;
use focil::service::{
    build_inclusion_list, duty_wait_ms, get_inclusion_list_submission_due_ms,
    get_proposer_inclusion_list_cutoff_ms, get_view_freeze_cutoff_ms, heze_fork_activated,
    select_inclusion_list_duties, ChainSpec, PublicKeyBytes,
};

fn mainnet() -> ChainSpec {
    ChainSpec { seconds_per_slot: 12, heze_fork_epoch: None }
}

#[test]
fn test_time_calculations() {
    // Test with 12 second slot
    let spec = mainnet();

    // Submission due: ~67% of 12s = ~8s = 8000ms
    let submission_due = get_inclusion_list_submission_due_ms(&spec);
    assert!(submission_due > 7000 && submission_due < 9000);

    // View freeze cutoff: 75% of 12s = 9s = 9000ms
    let view_freeze = get_view_freeze_cutoff_ms(&spec);
    assert_eq!(view_freeze, 9000);

    // Proposer cutoff: ~92% of 12s = ~11s = 11000ms
    let proposer_cutoff = get_proposer_inclusion_list_cutoff_ms(&spec);
    assert!(proposer_cutoff > 10000 && proposer_cutoff < 12000);
}

#[test]
fn exact_deadlines_for_twelve_second_slots() {
    let spec = mainnet();
    assert_eq!(get_inclusion_list_submission_due_ms(&spec), 8000);
    assert_eq!(get_proposer_inclusion_list_cutoff_ms(&spec), 11000);
    let six = ChainSpec { seconds_per_slot: 6, heze_fork_epoch: Some(3) };
    assert_eq!(get_inclusion_list_submission_due_ms(&six), 4000);
    assert_eq!(get_view_freeze_cutoff_ms(&six), 4500);
    assert_eq!(get_proposer_inclusion_list_cutoff_ms(&six), 5500);
}

#[test]
fn fork_activation() {
    assert!(!heze_fork_activated(None, Some(1000), 32));
    assert!(!heze_fork_activated(Some(2), None, 32));
    assert!(!heze_fork_activated(Some(2), Some(63), 32));
    assert!(heze_fork_activated(Some(2), Some(64), 32));
    assert!(heze_fork_activated(Some(0), Some(0), 32));
}

#[test]
fn duties_follow_our_keys_in_committee() {
    let k = |b: u8| PublicKeyBytes([b; 48]);
    let committee = vec![3, 9, 12];
    let ours = vec![(k(1), Some(9)), (k(2), None), (k(3), Some(4)), (k(4), Some(3))];
    let duties = select_inclusion_list_duties(&committee, &ours);
    assert_eq!(duties.len(), 2);
    assert_eq!(duties[0].0, 9);
    assert_eq!(duties[0].1 .0, [1u8; 48]);
    assert_eq!(duties[1].0, 3);
    assert_eq!(duties[1].1 .0, [4u8; 48]);
}

#[test]
fn wait_until_before_deadline() {
    assert_eq!(duty_wait_ms(10_000, 8000, 0), 17_000);
    assert_eq!(duty_wait_ms(10_000, 8000, 17_500), 0);
    assert_eq!(duty_wait_ms(10_000, 8000, 16_000), 1_000);
    assert_eq!(duty_wait_ms(0, 0, 5), 0);
}

#[test]
fn build_list_filters_and_caps() {
    let root = Hash256([3u8; 32]);
    let l = build_inclusion_list(5, 7, root, vec![vec![1, 2], vec![], vec![3]]);
    assert_eq!(l.slot, 5);
    assert_eq!(l.validator_index, 7);
    assert_eq!(l.inclusion_list_committee_root.0, [3u8; 32]);
    assert_eq!(l.transactions, vec![vec![1, 2], vec![], vec![3]]);

    let sixteen: Vec<Vec<u8>> = (0..16).map(|i| vec![i as u8]).collect();
    assert_eq!(build_inclusion_list(5, 7, root, sixteen.clone()).transactions, sixteen);
    let seventeen: Vec<Vec<u8>> = (0..17).map(|i| vec![i as u8]).collect();
    assert!(build_inclusion_list(5, 7, root, seventeen).transactions.is_empty());
}
