use focil::committee::{
    get_inclusion_list_committee, get_inclusion_list_committee_root, is_inclusion_list_committee_member,
    is_valid_inclusion_list_signature, HelperError,
};
use focil::inclusion_list::{
    InclusionList, SignatureBytes, SignedInclusionList, INCLUSION_LIST_COMMITTEE_SIZE,
};
use focil::primitives::Hash256;

fn committee_values(committees: &Vec<Vec<u64>>) -> Vec<u64> {
    get_inclusion_list_committee(committees).unwrap().to_vec()
}

#[test]
fn test_committee_size() {
    // The committee should always be of size INCLUSION_LIST_COMMITTEE_SIZE (16)
    assert_eq!(INCLUSION_LIST_COMMITTEE_SIZE, 16);
}

#[test]
fn committee_round_robin_over_concatenated_committees() {
    let committees = vec![vec![5, 6], vec![7], vec![]];
    let c = committee_values(&committees);
    assert_eq!(c, vec![5, 6, 7, 5, 6, 7, 5, 6, 7, 5, 6, 7, 5, 6, 7, 5]);
}

#[test]
fn committee_takes_first_sixteen_of_large_slots() {
    let committees = vec![(0..10).collect::<Vec<u64>>(), (10..40).collect::<Vec<u64>>()];
    let c = committee_values(&committees);
    assert_eq!(c, (0..16).collect::<Vec<u64>>());
}

#[test]
fn empty_slot_gives_zero_committee() {
    let c = committee_values(&vec![]);
    assert_eq!(c, vec![0u64; 16]);
    let c = committee_values(&vec![vec![], vec![]]);
    assert_eq!(c, vec![0u64; 16]);
}

#[test]
fn committee_membership() {
    let committees = vec![vec![5, 6], vec![7]];
    assert!(is_inclusion_list_committee_member(&committees, 7).unwrap());
    assert!(!is_inclusion_list_committee_member(&committees, 8).unwrap());
    assert!(is_inclusion_list_committee_member(&vec![], 0).unwrap());
}

#[test]
fn committee_root_depends_on_members() {
    let a = get_inclusion_list_committee_root(&vec![vec![1, 2, 3]]).unwrap();
    let b = get_inclusion_list_committee_root(&vec![vec![1, 2, 4]]).unwrap();
    let c = get_inclusion_list_committee_root(&vec![vec![1], vec![2, 3]]).unwrap();
    assert!(a.0 != b.0);
    assert_eq!(a.0, c.0);
    // Sixteen zero-valued u64 leaves pack into four zero chunks, whose root
    // is the depth-two zero hash, not the zero root.
    let z = get_inclusion_list_committee_root(&vec![]).unwrap();
    assert!(z.0 != [0u8; 32]);
}

fn signed(validator_index: u64, root: Hash256) -> SignedInclusionList {
    SignedInclusionList {
        message: InclusionList {
            slot: 1,
            validator_index,
            inclusion_list_committee_root: root,
            transactions: vec![],
        },
        signature: SignatureBytes([0u8; 96]),
    }
}

#[test]
fn signature_checks_in_order() {
    let committees = vec![vec![2, 4, 6]];
    let root = get_inclusion_list_committee_root(&committees).unwrap();
    assert!(matches!(
        is_valid_inclusion_list_signature(&signed(10, root), 10, true, &committees, true),
        Err(HelperError::ValidatorIndexOutOfBounds(10))
    ));
    assert!(matches!(
        is_valid_inclusion_list_signature(&signed(4, root), 10, false, &committees, true),
        Err(HelperError::PubkeyDecompression)
    ));
    assert!(!is_valid_inclusion_list_signature(&signed(5, root), 10, true, &committees, true).unwrap());
    assert!(!is_valid_inclusion_list_signature(&signed(4, Hash256::zero()), 10, true, &committees, true)
        .unwrap());
    assert!(is_valid_inclusion_list_signature(&signed(4, root), 10, true, &committees, true).unwrap());
    assert!(!is_valid_inclusion_list_signature(&signed(4, root), 10, true, &committees, false).unwrap());
}
