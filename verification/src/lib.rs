//! Mining of cheap function selectors.
//!
//! A signature string such as `myFunction(address)` is split into a name and a
//! parameter list, a search space of identifier suffixes over a fixed
//! 64-symbol alphabet is generated, and the search returns the first suffix
//! (in generation order) whose full signature hashes to a digest with the
//! requested number of leading zero bytes.

pub mod digest;
pub mod optimizer;
pub mod preprocessor;

use vstd::prelude::*;

use crate::optimizer::{build_combinations, find_optimization, is_search_result,
    spec_combinations, MAX_SUFFIX_LENGTH};
use crate::preprocessor::{balanced_parens, cleaned, ends_with_close, name_of, params_of,
    try_preprocess, valid_signature, PreProcessError};

verus! {

/// Preprocesses the raw signature, generates the suffix search space for the
/// given length bound, and searches it with the separator `_` appended to the
/// signature's name.  On success the first qualifying suffix (in generation
/// order) is returned, or `None` when the space is exhausted.
pub fn run(function_signature: &str, suffix_length: u8, optimization_target: u8) -> (r: Result<
    Option<String>,
    PreProcessError,
>)
    requires
        suffix_length <= MAX_SUFFIX_LENGTH,
    ensures
        ({
            let c = cleaned(function_signature@);
            &&& (r is Ok <==> valid_signature(c))
            &&& (r matches Ok(opt) ==> is_search_result(
                name_of(c).push('_'),
                params_of(c),
                spec_combinations(suffix_length),
                optimization_target,
                opt.deep_view(),
            ))
            &&& (!ends_with_close(c) ==> (r matches Err(e)
                && e matches PreProcessError::InvalidFunctionSignatureParenthesis(m) && m@
                == "function signature doesn't end with a closing parenthesis"@))
            &&& (ends_with_close(c) && !balanced_parens(c) ==> (r matches Err(e)
                && e matches PreProcessError::InvalidFunctionSignatureParenthesis(m) && m@
                == "function signature doesn't have the same number of opening and closing parenthesis"@))
        }),
{
    let mut function = match try_preprocess(function_signature) {
        Ok(f) => f,
        Err(e) => {
            return Err(e);
        },
    };
    let combinations = build_combinations(suffix_length);
    function.name.push('_');
    let result = find_optimization(
        function.name.as_str(),
        function.params.as_str(),
        &combinations,
        optimization_target,
    );
    Ok(result)
}

} // verus!
