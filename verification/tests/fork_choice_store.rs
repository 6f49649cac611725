use focil::balances::{BalancesCache, StateSummary, ValidatorBalance, JustifiedBalances, ArithError};
use focil::fork_choice_store::{
    anchor_block_header_state_root, AnchorSnapshot, BeaconForkChoiceStore, Checkpoint, Error,
    ForkChoiceStore, JustifiedBalancesUpdate, PersistedForkChoiceStoreV17,
};
use focil::primitives::Hash256;
use std::collections::BTreeSet;

fn root(b: u8) -> Hash256 {
    Hash256([b; 32])
}

fn validators(balances: &[u64]) -> Vec<ValidatorBalance> {
    balances
        .iter()
        .map(|b| ValidatorBalance { effective_balance: *b, active_and_unslashed: *b != 1 })
        .collect()
}

fn anchor(slot: u64) -> AnchorSnapshot {
    AnchorSnapshot {
        state_slot: slot,
        slots_per_epoch: 32,
        current_epoch: slot / 32,
        block_header_slot: slot,
        block_root: root(1),
        validators: validators(&[32, 1, 16]),
        state_root: Ok(root(2)),
    }
}

fn store() -> BeaconForkChoiceStore {
    BeaconForkChoiceStore::get_forkchoice_store(&anchor(64), 4).unwrap()
}

#[test]
fn anchor_store_contents() {
    let s = store();
    assert_eq!(s.get_current_slot(), 64);
    let c = s.justified_checkpoint();
    assert_eq!(c.epoch, 2);
    assert_eq!(c.root.0, [1u8; 32]);
    assert_eq!(s.finalized_checkpoint().root.0, [1u8; 32]);
    assert_eq!(s.unrealized_finalized_checkpoint().epoch, 2);
    assert_eq!(s.justified_state_root().0, [2u8; 32]);
    assert_eq!(s.unrealized_justified_state_root().0, [2u8; 32]);
    assert_eq!(s.proposer_boost_root().0, [0u8; 32]);
    assert!(s.equivocating_indices().is_empty());
    let b = s.justified_balances();
    assert_eq!(b.effective_balances, vec![32, 0, 16]);
    assert_eq!(b.total_effective_balance, 48);
    assert_eq!(b.num_active_validators, 2);
    assert_eq!(s.is_payload_inclusion_list_satisfied(root(1)), Some(true));
    assert_eq!(s.is_payload_inclusion_list_satisfied(root(9)), None);
    assert_eq!(s.payload_timeliness_vote(root(1)), Some(&vec![true; 4]));
    assert_eq!(s.payload_data_availability_vote(root(1)), Some(&vec![true; 4]));
    assert!(s.is_payload_timely(4, root(1)));
    assert!(s.is_payload_data_available(4, root(1)));
}

#[test]
fn anchor_must_be_on_epoch_boundary() {
    match BeaconForkChoiceStore::get_forkchoice_store(&anchor(65), 4) {
        Err(Error::UnalignedCheckpoint { block_slot, state_slot }) => {
            assert_eq!(block_slot, 65);
            assert_eq!(state_slot, 65);
        }
        _ => panic!("expected UnalignedCheckpoint"),
    }
    let mut a = anchor(64);
    a.state_root = Err("no root".to_string());
    assert!(matches!(
        BeaconForkChoiceStore::get_forkchoice_store(&a, 4),
        Err(Error::BeaconStateError(_))
    ));
    let mut a = anchor(64);
    a.validators = validators(&[u64::MAX, 2]);
    assert!(matches!(
        BeaconForkChoiceStore::get_forkchoice_store(&a, 4),
        Err(Error::Arith(ArithError::Overflow))
    ));
}

#[test]
fn anchor_header_state_root_is_filled_when_zero() {
    assert_eq!(anchor_block_header_state_root(Hash256::zero(), root(5)).0, [5u8; 32]);
    assert_eq!(anchor_block_header_state_root(root(4), root(5)).0, [4u8; 32]);
}

#[test]
fn setters_change_one_field() {
    let mut s = store();
    s.set_current_slot(70);
    s.set_finalized_checkpoint(Checkpoint { epoch: 1, root: root(3) });
    s.set_unrealized_justified_checkpoint(Checkpoint { epoch: 2, root: root(4) }, root(5));
    s.set_unrealized_finalized_checkpoint(Checkpoint { epoch: 1, root: root(6) });
    s.set_proposer_boost_root(root(7));
    s.extend_equivocating_indices(vec![5, 3, 5]);
    assert_eq!(s.get_current_slot(), 70);
    assert_eq!(s.finalized_checkpoint().root.0, [3u8; 32]);
    assert_eq!(s.unrealized_justified_checkpoint().root.0, [4u8; 32]);
    assert_eq!(s.unrealized_justified_state_root().0, [5u8; 32]);
    assert_eq!(s.unrealized_finalized_checkpoint().root.0, [6u8; 32]);
    assert_eq!(s.proposer_boost_root().0, [7u8; 32]);
    assert_eq!(s.equivocating_indices().iter().copied().collect::<Vec<_>>(), vec![3, 5]);
    assert_eq!(s.justified_checkpoint().root.0, [1u8; 32]);
}

#[test]
fn inclusion_list_satisfaction_read_after_write() {
    let mut s = store();
    s.set_payload_inclusion_list_satisfaction(root(8), false);
    assert_eq!(s.is_payload_inclusion_list_satisfied(root(8)), Some(false));
    s.set_payload_inclusion_list_satisfaction(root(8), true);
    assert_eq!(s.is_payload_inclusion_list_satisfied(root(8)), Some(true));
    assert_eq!(s.is_payload_inclusion_list_satisfied(root(1)), Some(true));
    assert!(s.payload_inclusion_list_satisfaction().contains_key(&root(8)));
}

#[test]
fn ptc_votes() {
    let mut s = store();
    // A vote before initialization gives the block ptc_size false votes.
    s.set_payload_timeliness_vote(root(9), 1, true);
    assert_eq!(s.payload_timeliness_vote(root(9)), Some(&vec![false, true, false, false]));
    // Initializing keeps recorded votes.
    s.initialize_ptc_votes(root(9), 4);
    assert_eq!(s.payload_timeliness_vote(root(9)), Some(&vec![false, true, false, false]));
    assert_eq!(s.payload_data_availability_vote(root(9)), Some(&vec![false; 4]));
    // Out-of-range votes are ignored.
    s.set_payload_timeliness_vote(root(9), 4, true);
    assert_eq!(s.payload_timeliness_vote(root(9)), Some(&vec![false, true, false, false]));
    assert!(!s.is_payload_timely(4, root(9)));
    s.set_payload_timeliness_vote(root(9), 2, true);
    assert!(!s.is_payload_timely(4, root(9)));
    s.set_payload_timeliness_vote(root(9), 3, true);
    assert!(s.is_payload_timely(4, root(9)));
    assert!(!s.is_payload_timely(4, root(10)));
    s.set_payload_data_availability_vote(root(9), 0, true);
    s.set_payload_data_availability_vote(root(9), 1, true);
    s.set_payload_data_availability_vote(root(9), 2, true);
    assert!(s.is_payload_data_available(4, root(9)));
    assert!(!s.is_payload_data_available(5, root(9)));
}

fn state(slot: u64, boundary: Result<Hash256, String>, balances: &[u64]) -> StateSummary {
    StateSummary {
        slot,
        current_epoch: slot / 32,
        slots_per_epoch: 32,
        epoch_boundary_block_root: boundary,
        validators: validators(balances),
    }
}

#[test]
fn justified_balances_from_cache_or_state() {
    let mut s = store();
    // The block at the epoch boundary is cached with its state's balances.
    s.on_verified_block(root(20), &state(96, Err("unused".to_string()), &[10, 20])).unwrap();
    // A later state of the same epoch names the boundary block; no change.
    s.on_verified_block(root(21), &state(97, Ok(root(20)), &[99])).unwrap();
    match s.set_justified_checkpoint(Checkpoint { epoch: 3, root: root(20) }, root(22)).unwrap() {
        JustifiedBalancesUpdate::FromCache => {}
        other => panic!("unexpected {:?}", other),
    }
    assert_eq!(s.justified_balances().effective_balances, vec![10, 20]);
    assert_eq!(s.justified_state_root().0, [22u8; 32]);
    // Not cached: the state must be read.
    match s.set_justified_checkpoint(Checkpoint { epoch: 4, root: root(30) }, root(31)).unwrap() {
        JustifiedBalancesUpdate::LoadState(r) => assert_eq!(r.0, [31u8; 32]),
        other => panic!("unexpected {:?}", other),
    }
    assert!(matches!(
        s.set_justified_balances_from_state(Err("disk".to_string())),
        Err(Error::FailedToReadState(_))
    ));
    match s.set_justified_balances_from_state(Ok(None)) {
        Err(Error::MissingState(r)) => assert_eq!(r.0, [31u8; 32]),
        _ => panic!("expected MissingState"),
    }
    s.set_justified_balances_from_state(Ok(Some(validators(&[5, 1, 7])))).unwrap();
    assert_eq!(s.justified_balances().effective_balances, vec![5, 0, 7]);
    assert_eq!(s.justified_balances().total_effective_balance, 12);
    // A state that cannot give its boundary root is an error.
    assert!(matches!(
        s.on_verified_block(root(40), &state(130, Err("roots".to_string()), &[1])),
        Err(Error::BeaconStateError(_))
    ));
}

#[test]
fn balances_cache_keeps_four_newest() {
    let mut cache = BalancesCache::new();
    for epoch in 1..=5u64 {
        let s = state(epoch * 32, Err(String::new()), &[epoch]);
        cache.process_state(root(epoch as u8), &s).unwrap();
    }
    assert_eq!(cache.get(root(1), 1), None);
    for epoch in 2..=5u64 {
        assert_eq!(cache.get(root(epoch as u8), epoch), Some(vec![epoch]));
    }
    assert_eq!(cache.get(root(2), 3), None);
}

#[test]
fn persist_and_restore() {
    let mut s = store();
    s.set_payload_inclusion_list_satisfaction(root(8), false);
    s.set_payload_timeliness_vote(root(9), 2, true);
    s.set_payload_data_availability_vote(root(9), 3, true);
    s.extend_equivocating_indices(vec![11]);
    s.set_proposer_boost_root(root(12));
    let p = s.to_persisted();
    assert_eq!(p.time, 64);
    assert_eq!(p.payload_inclusion_list_satisfaction.len(), 2);
    let r = BeaconForkChoiceStore::from_persisted(p, Ok(Some(validators(&[3]))), 4).unwrap();
    assert_eq!(r.get_current_slot(), 64);
    assert_eq!(r.proposer_boost_root().0, [12u8; 32]);
    assert_eq!(r.is_payload_inclusion_list_satisfied(root(8)), Some(false));
    assert_eq!(r.is_payload_inclusion_list_satisfied(root(1)), Some(true));
    assert_eq!(r.payload_timeliness_vote(root(9)), Some(&vec![false, false, true, false]));
    assert_eq!(r.payload_data_availability_vote(root(9)), Some(&vec![false, false, false, true]));
    assert_eq!(r.payload_timeliness_vote(root(1)), Some(&vec![true; 4]));
    assert!(r.equivocating_indices().contains(&11));
    assert_eq!(r.justified_balances().effective_balances, vec![3]);
    assert_eq!(r.justified_checkpoint().root.0, [1u8; 32]);
}

#[test]
fn restore_errors_and_later_pairs_win() {
    let s = store();
    let mut p = s.to_persisted();
    p.payload_inclusion_list_satisfaction.push((root(1), false));
    let r = BeaconForkChoiceStore::from_persisted(p, Ok(Some(vec![])), 4).unwrap();
    assert_eq!(r.is_payload_inclusion_list_satisfied(root(1)), Some(false));
    assert!(matches!(
        BeaconForkChoiceStore::from_persisted(s.to_persisted(), Err("io".to_string()), 4),
        Err(Error::FailedToReadState(_))
    ));
    match BeaconForkChoiceStore::from_persisted(s.to_persisted(), Ok(None), 4) {
        Err(Error::MissingState(r)) => assert_eq!(r.0, [2u8; 32]),
        _ => panic!("expected MissingState"),
    }
}

#[test]
fn schema_17_conversions() {
    let s = store();
    let v28 = s.to_persisted();
    let balances = JustifiedBalances::from_effective_balances(vec![4, 0, 6]).unwrap();
    assert_eq!(balances.total_effective_balance, 10);
    assert_eq!(balances.num_active_validators, 2);
    let v17 = PersistedForkChoiceStoreV17::from_v28(v28, balances);
    assert_eq!(v17.justified_balances, vec![4, 0, 6]);
    assert_eq!(v17.time, 64);
    let r = BeaconForkChoiceStore::from_persisted_v17(v17, root(13), root(14), 4).unwrap();
    assert_eq!(r.justified_state_root().0, [13u8; 32]);
    assert_eq!(r.unrealized_justified_state_root().0, [14u8; 32]);
    assert_eq!(r.justified_balances().total_effective_balance, 10);
    assert_eq!(r.is_payload_inclusion_list_satisfied(root(1)), None);
    let bad = PersistedForkChoiceStoreV17 {
        balances_cache: BalancesCache::new(),
        time: 0,
        finalized_checkpoint: Checkpoint { epoch: 0, root: root(0) },
        justified_checkpoint: Checkpoint { epoch: 0, root: root(0) },
        justified_balances: vec![u64::MAX, 1],
        unrealized_justified_checkpoint: Checkpoint { epoch: 0, root: root(0) },
        unrealized_finalized_checkpoint: Checkpoint { epoch: 0, root: root(0) },
        proposer_boost_root: root(0),
        equivocating_indices: BTreeSet::new(),
    };
    assert!(matches!(
        BeaconForkChoiceStore::from_persisted_v17(bad, root(0), root(0), 4),
        Err(Error::Arith(ArithError::Overflow))
    ));
}

#[test]
fn justified_checkpoint_with_state_reads() {
    let mut s = store();
    s.on_verified_block(root(20), &state(96, Err("unused".to_string()), &[10, 20])).unwrap();
    // Cached: the state is not read.
    s.set_justified_checkpoint_loading(Checkpoint { epoch: 3, root: root(20) }, root(22), |_| {
        panic!("the state must not be read on a cache hit")
    })
    .unwrap();
    assert_eq!(s.justified_balances().effective_balances, vec![10, 20]);
    // Not cached, no state: MissingState, balances kept.
    match s.set_justified_checkpoint_loading(Checkpoint { epoch: 4, root: root(30) }, root(31), |r| {
        assert_eq!(r.0, [31u8; 32]);
        Ok(None)
    }) {
        Err(Error::MissingState(r)) => assert_eq!(r.0, [31u8; 32]),
        _ => panic!("expected MissingState"),
    }
    assert_eq!(s.justified_balances().effective_balances, vec![10, 20]);
    assert_eq!(s.justified_checkpoint().epoch, 4);
    assert_eq!(s.justified_state_root().0, [31u8; 32]);
    // Not cached, state read: its balances.
    s.set_justified_checkpoint_loading(Checkpoint { epoch: 5, root: root(40) }, root(41), |_| {
        Ok(Some(validators(&[8, 1, 9])))
    })
    .unwrap();
    assert_eq!(s.justified_balances().effective_balances, vec![8, 0, 9]);
    assert_eq!(s.justified_balances().total_effective_balance, 17);
}
