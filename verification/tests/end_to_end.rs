use selector_miner::optimizer::build_combinations;
use selector_miner::preprocessor::PreProcessError;
use selector_miner::run;
use sha3::{Digest, Keccak256};

#[test]
fn it_finds_an_optimization() {
    let found = run("myFunction(address)", 4, 2)
        .unwrap()
        .expect("the search space of suffixes up to length 3 should hold a match");

    // The reported suffix really digests to two leading zero bytes.
    let signature = format!("myFunction_{found}(address)");
    let digest = Keccak256::digest(signature.as_bytes());
    assert_eq!(&digest[..2], &[0u8, 0u8]);

    // No earlier candidate of the generation order also qualifies.
    for candidate in build_combinations(4) {
        if candidate == found {
            break;
        }
        let earlier = format!("myFunction_{candidate}(address)");
        let earlier_digest = Keccak256::digest(earlier.as_bytes());
        assert_ne!(&earlier_digest[..2], &[0u8, 0u8]);
    }
}

#[test]
fn run_is_deterministic() {
    let first = run("myFunction(address)", 3, 1).unwrap();
    let second = run("myFunction(address)", 3, 1).unwrap();
    assert_eq!(first, second);
}

#[test]
fn run_rejects_invalid_signature() {
    let err = run("foo(a,b", 3, 2).unwrap_err();
    assert!(matches!(
        err,
        PreProcessError::InvalidFunctionSignatureParenthesis(_)
    ));
}
