use selector_miner::optimizer::{
    build_combinations, candidate_matches, find_optimization, leading_zeros_meet_target,
};
use sha3::{Digest, Keccak256};
use std::collections::HashSet;

fn leading_zero_bytes(signature: &str) -> usize {
    let digest = Keccak256::digest(signature.as_bytes());
    digest.iter().take(4).take_while(|&&b| b == 0).count()
}

#[test]
fn combinations_count_matches_formula() {
    assert_eq!(build_combinations(0).len(), 64);
    assert_eq!(build_combinations(1).len(), 64);
    assert_eq!(build_combinations(2).len(), 64);
    assert_eq!(build_combinations(3).len(), 64 + 64 * 64);
    assert_eq!(build_combinations(4).len(), 64 + 64 * 64 + 64 * 64 * 64);
}

#[test]
fn combinations_have_bounded_lengths_and_no_duplicates() {
    let combos = build_combinations(3);
    let mut seen: HashSet<&str> = HashSet::new();
    for c in &combos {
        assert!(1 <= c.len() && c.len() <= 2);
        assert!(seen.insert(c.as_str()), "duplicate combination {c}");
    }
}

#[test]
fn combinations_come_in_alphabet_order() {
    let combos = build_combinations(3);
    assert_eq!(combos[0], "0");
    assert_eq!(combos[9], "9");
    assert_eq!(combos[10], "a");
    assert_eq!(combos[35], "z");
    assert_eq!(combos[36], "A");
    assert_eq!(combos[61], "Z");
    assert_eq!(combos[62], "$");
    assert_eq!(combos[63], "_");
    assert_eq!(combos[64], "00");
    assert_eq!(combos[65], "01");
    assert_eq!(combos[64 + 63], "0_");
    assert_eq!(combos[64 + 64], "10");
    assert_eq!(combos[combos.len() - 1], "__");
}

#[test]
fn combinations_are_reproducible() {
    assert_eq!(build_combinations(4), build_combinations(4));
}

#[test]
fn find_optimization_with_target_zero_returns_first_candidate() {
    let combos = build_combinations(3);
    let found = find_optimization("myFunction_", "(address)", &combos, 0);
    assert_eq!(found.as_deref(), Some("0"));
}

#[test]
fn find_optimization_beyond_window_reports_exhaustion() {
    let combos = build_combinations(2);
    assert_eq!(find_optimization("myFunction_", "(address)", &combos, 5), None);
}

#[test]
fn find_optimization_on_empty_list_reports_exhaustion() {
    let combos: Vec<String> = Vec::new();
    assert_eq!(find_optimization("myFunction_", "(address)", &combos, 0), None);
}

#[test]
fn zero_byte_window_is_fixed_at_four() {
    let all_zero = vec![0u8; 32];
    for target in 0u8..=4 {
        assert!(leading_zeros_meet_target(&all_zero, target));
    }
    // Beyond the four inspected bytes no digest qualifies, zero or not.
    assert!(!leading_zeros_meet_target(&all_zero, 5));
    assert!(!leading_zeros_meet_target(&all_zero, 255));

    let mut two_zeros = vec![0u8, 0, 7, 0];
    two_zeros.extend(vec![0xffu8; 28]);
    assert!(leading_zeros_meet_target(&two_zeros, 0));
    assert!(leading_zeros_meet_target(&two_zeros, 2));
    assert!(!leading_zeros_meet_target(&two_zeros, 3));
}

#[test]
fn candidate_matches_agrees_with_direct_digest() {
    for candidate in ["a", "b", "00", "Zq"] {
        let zeros = leading_zero_bytes(&format!("myFunction_{candidate}(address)"));
        for target in 0u8..=5 {
            let expected = target as usize <= zeros && target <= 4;
            assert_eq!(
                candidate_matches("myFunction_", candidate, "(address)", target),
                expected
            );
        }
    }
}

#[test]
fn find_optimization_matches_sequential_scan() {
    let combos = build_combinations(3);
    let expected = combos
        .iter()
        .find(|c| leading_zero_bytes(&format!("f_{c}()")) >= 1)
        .cloned();
    assert_eq!(find_optimization("f_", "()", &combos, 1), expected);
}
