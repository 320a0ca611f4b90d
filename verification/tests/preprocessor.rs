use selector_miner::preprocessor::{
    remove_whitespaces, try_parse, try_preprocess, try_validate, verify_parenthesis,
    FunctionSignature, PreProcessError,
};

#[test]
fn preprocess_splits_name_and_params() {
    let f = try_preprocess("foo(a,b)").unwrap();
    assert_eq!(f.name, "foo");
    assert_eq!(f.params, "(a,b)");
}

#[test]
fn preprocess_strips_whitespace() {
    let f = try_preprocess("foo (a, b)").unwrap();
    assert_eq!(f.name, "foo");
    assert_eq!(f.params, "(a,b)");
}

#[test]
fn preprocess_strips_tabs_and_newlines() {
    let f = try_preprocess("\tbar \n( uint256 , address )\n").unwrap();
    assert_eq!(f.name, "bar");
    assert_eq!(f.params, "(uint256,address)");
}

#[test]
fn preprocess_rejects_missing_closing_parenthesis() {
    let err = try_preprocess("foo(a,b").unwrap_err();
    assert!(matches!(
        err,
        PreProcessError::InvalidFunctionSignatureParenthesis(_)
    ));
    match err {
        PreProcessError::InvalidFunctionSignatureParenthesis(msg) => {
            assert_eq!(
                msg,
                "function signature doesn't end with a closing parenthesis"
            );
        }
        _ => unreachable!(),
    }
}

#[test]
fn preprocess_rejects_unbalanced_parentheses() {
    let err = try_preprocess("foo(a,(b)").unwrap_err();
    match err {
        PreProcessError::InvalidFunctionSignatureParenthesis(msg) => {
            assert_eq!(
                msg,
                "function signature doesn't have the same number of opening and closing parenthesis"
            );
        }
        _ => unreachable!(),
    }
}

#[test]
fn preprocess_splits_at_first_opening_parenthesis() {
    let f = try_preprocess("f(a)(b)").unwrap();
    assert_eq!(f.name, "f");
    assert_eq!(f.params, "(a)(b)");
}

#[test]
fn preprocess_accepts_empty_name() {
    let f = try_preprocess("(uint8)").unwrap();
    assert_eq!(f.name, "");
    assert_eq!(f.params, "(uint8)");
}

#[test]
fn remove_whitespaces_keeps_other_characters() {
    assert_eq!(remove_whitespaces(" a b\tc\nd "), "abcd");
    assert_eq!(remove_whitespaces("nospace"), "nospace");
    assert_eq!(remove_whitespaces(" \t\n"), "");
}

#[test]
fn verify_parenthesis_accepts_balanced_signature() {
    assert!(verify_parenthesis("foo(a,(b))").is_ok());
    assert!(try_validate("foo(a,b)").is_ok());
}

#[test]
fn verify_parenthesis_rejects_empty_string() {
    let err = verify_parenthesis("").unwrap_err();
    assert!(matches!(
        err,
        PreProcessError::InvalidFunctionSignatureParenthesis(_)
    ));
}

#[test]
fn try_parse_reports_missing_parenthesis() {
    let err = try_parse("foo").unwrap_err();
    match err {
        PreProcessError::ErrorRegexParsing(msg) => {
            assert_eq!(msg, "could not parse function signature correctly");
        }
        _ => unreachable!(),
    }
}

#[test]
fn default_signature_is_empty() {
    let f = FunctionSignature::default();
    assert_eq!(f.name, "");
    assert_eq!(f.params, "");
}
