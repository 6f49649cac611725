use focil::inclusion_list::{InclusionList, SignatureBytes, SignedInclusionList, MAX_BYTES_PER_INCLUSION_LIST};
use focil::primitives::Hash256;
use focil::verification::{
    verify_propagation_slot_range, Error, ObservedInclusionLists, VerifiedInclusionList,
};

fn list(slot: u64, tx_sizes: &[usize]) -> SignedInclusionList {
    SignedInclusionList {
        message: InclusionList {
            slot,
            validator_index: 3,
            inclusion_list_committee_root: Hash256([7u8; 32]),
            transactions: tx_sizes.iter().map(|n| vec![1u8; *n]).collect(),
        },
        signature: SignatureBytes([0u8; 96]),
    }
}

#[test]
fn test_observed_inclusion_lists() {
    let mut store = ObservedInclusionLists::new();
    let slot = 1u64;
    let root = Hash256::zero();
    let validator = 0u64;

    // First observation should not be equivocation
    assert!(!store.observe(slot, root, validator));
    assert!(store.is_known(slot, root, validator));
    assert!(!store.is_equivocator(slot, root, validator));

    // Second observation should be equivocation
    assert!(store.observe(slot, root, validator));
    assert!(!store.is_known(slot, root, validator));
    assert!(store.is_equivocator(slot, root, validator));
}

#[test]
fn test_max_bytes() {
    assert_eq!(MAX_BYTES_PER_INCLUSION_LIST, 8192);
}

#[test]
fn equivocator_stays_equivocator() {
    let mut store = ObservedInclusionLists::new();
    let root = Hash256([9u8; 32]);
    assert!(!store.observe(5, root, 1));
    assert!(store.observe(5, root, 1));
    assert!(store.observe(5, root, 1));
    assert!(store.is_equivocator(5, root, 1));
    assert!(!store.is_known(5, root, 1));
    // Other keys are unaffected.
    assert!(!store.observe(5, root, 2));
    assert!(!store.observe(6, root, 1));
    assert!(!store.observe(5, Hash256::zero(), 1));
}

#[test]
fn prune_drops_slots_more_than_two_back() {
    let mut store = ObservedInclusionLists::new();
    let root = Hash256::zero();
    store.observe(7, root, 1);
    store.observe(8, root, 1);
    store.observe(8, root, 1);
    store.observe(10, root, 1);
    store.prune(10);
    assert!(!store.is_known(7, root, 1));
    assert!(store.is_equivocator(8, root, 1));
    assert!(store.is_known(10, root, 1));
    store.prune(11);
    assert!(!store.is_equivocator(8, root, 1));
    assert!(store.is_known(10, root, 1));
    // At slot 1 nothing is pruned.
    let mut early = ObservedInclusionLists::new();
    early.observe(0, root, 4);
    early.prune(1);
    assert!(early.is_known(0, root, 4));
}

#[test]
fn verify_basic_accepts_current_and_previous_slot() {
    let v = VerifiedInclusionList::verify_basic(list(10, &[100, 200]), 10).unwrap();
    assert_eq!(v.as_inner().message.slot, 10);
    let v = VerifiedInclusionList::verify_basic(list(9, &[]), 10).unwrap();
    assert_eq!(v.into_inner().message.validator_index, 3);
    // At slot zero the previous slot is slot zero.
    assert!(VerifiedInclusionList::verify_basic(list(0, &[]), 0).is_ok());
}

#[test]
fn verify_basic_rejects_large_lists() {
    match VerifiedInclusionList::verify_basic(list(10, &[8000, 193]), 10) {
        Err(Error::ExceedsMaxBytes { actual, max }) => {
            assert_eq!(actual, 8193);
            assert_eq!(max, 8192);
        }
        other => panic!("unexpected {:?}", other),
    }
    assert!(VerifiedInclusionList::verify_basic(list(10, &[8000, 192]), 10).is_ok());
}

#[test]
fn verify_basic_rejects_other_slots() {
    match VerifiedInclusionList::verify_basic(list(8, &[1]), 10) {
        Err(Error::InvalidSlot { slot, current_slot }) => {
            assert_eq!(slot, 8);
            assert_eq!(current_slot, 10);
        }
        other => panic!("unexpected {:?}", other),
    }
    assert!(matches!(
        VerifiedInclusionList::verify_basic(list(11, &[1]), 10),
        Err(Error::InvalidSlot { .. })
    ));
}

#[test]
fn propagation_range_checks() {
    let l = list(10, &[]).message;
    assert!(matches!(verify_propagation_slot_range(None, true, &l), Err(Error::NotSynced)));
    assert!(matches!(
        verify_propagation_slot_range(Some(12), true, &l),
        Err(Error::InvalidSlot { slot: 10, current_slot: 12 })
    ));
    assert!(matches!(
        verify_propagation_slot_range(Some(11), false, &l),
        Err(Error::ReceivedTooLate { slot: 10 })
    ));
    assert!(verify_propagation_slot_range(Some(11), true, &l).is_ok());
    assert!(verify_propagation_slot_range(Some(10), true, &l).is_ok());
}

#[test]
fn inclusion_list_sizes() {
    let l = list(1, &[3, 4, 5]).message;
    assert_eq!(l.total_bytes(), 12);
    assert_eq!(l.transaction_count(), 3);
    assert!(!l.exceeds_max_bytes());
    assert!(list(1, &[8193]).message.exceeds_max_bytes());
}

#[test]
fn signing_epoch_of_list() {
    assert_eq!(list(65, &[]).message.signing_epoch(32), 2);
    assert_eq!(list(63, &[]).message.signing_epoch(32), 1);
}
