use focil::supermajority::has_two_thirds_supermajority;

#[test]
fn supermajority_helper_accepts_exact_two_thirds() {
    assert!(has_two_thirds_supermajority(2, 3));
    assert!(has_two_thirds_supermajority(4, 6));
}

#[test]
fn supermajority_helper_rejects_less_than_two_thirds() {
    assert!(!has_two_thirds_supermajority(1, 2));
    assert!(!has_two_thirds_supermajority(3, 5));
}

#[test]
fn supermajority_saturates_large_counts() {
    // Both products saturate at usize::MAX, so the threshold is met.
    assert!(has_two_thirds_supermajority(usize::MAX, usize::MAX));
    assert!(has_two_thirds_supermajority(usize::MAX / 3 + 1, usize::MAX));
    assert!(!has_two_thirds_supermajority(0, 1));
    assert!(has_two_thirds_supermajority(0, 0));
    assert!(has_two_thirds_supermajority(342, 512));
    assert!(!has_two_thirds_supermajority(341, 512));
}
