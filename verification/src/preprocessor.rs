//! Signature preprocessing: whitespace removal, parenthesis validation, and
//! the split of a raw signature string into a function name and a parameter
//! list.

use vstd::prelude::*;
use vstd::seq_lib::*;
use vstd::string::StrSliceExecFns;

verus! {

/// A validated function signature: the identifier before the first opening
/// parenthesis, and the parameter list including its parentheses.
#[derive(Debug)]
pub struct FunctionSignature {
    pub name: String,
    pub params: String,
}

/// The ways preprocessing a raw signature string can fail.  Each variant
/// carries a human-readable description of the failed check.
#[derive(Debug)]
pub enum PreProcessError {
    InvalidFunctionSignatureParenthesis(String),
    InvalidFunctionSignatureParsing(String),
    ErrorRegexParsing(String),
}

/// Membership of a character in the Unicode `White_Space` property, as
/// decided by `char::is_whitespace`.
pub uninterp spec fn is_unicode_whitespace(c: char) -> bool;

/// Relies on `char::is_whitespace`: whether the character has the Unicode
/// `White_Space` property, a function of the character alone.
pub assume_specification[ char::is_whitespace ](c: char) -> (r: bool)
    ensures
        r == is_unicode_whitespace(c),
;

/// Relies on `String::push`: appends the given character to the end of the
/// string.
pub assume_specification[ String::push ](s: &mut String, c: char)
    ensures
        final(s)@ == old(s)@.push(c),
;

/// The signature with every whitespace character removed.
pub open spec fn cleaned(s: Seq<char>) -> Seq<char> {
    s.filter(|c: char| !is_unicode_whitespace(c))
}

proof fn lemma_cleaned_take_step(s: Seq<char>, i: int)
    requires
        0 <= i < s.len(),
    ensures
        cleaned(s.take(i + 1)) == if is_unicode_whitespace(s[i]) {
            cleaned(s.take(i))
        } else {
            cleaned(s.take(i)).push(s[i])
        },
{
    reveal(Seq::filter);
    let t = s.take(i + 1);
    assert(t.drop_last() =~= s.take(i));
    assert(t.last() == s[i]);
}

/// How many times the character `c` occurs in `s`.
pub open spec fn count_occ(s: Seq<char>, c: char) -> nat {
    s.filter(|x: char| x == c).len()
}

/// The cleaned signature must end with a closing parenthesis.
pub open spec fn ends_with_close(s: Seq<char>) -> bool {
    s.len() > 0 && s[s.len() - 1] == ')'
}

/// Opening and closing parentheses occur equally often.
pub open spec fn balanced_parens(s: Seq<char>) -> bool {
    count_occ(s, '(') == count_occ(s, ')')
}

/// A cleaned signature string that passes validation: it ends with `)` and
/// its parentheses are balanced.
pub open spec fn valid_signature(s: Seq<char>) -> bool {
    ends_with_close(s) && balanced_parens(s)
}

proof fn lemma_count_take_step(s: Seq<char>, c: char, i: int)
    requires
        0 <= i < s.len(),
    ensures
        count_occ(s.take(i + 1), c) == count_occ(s.take(i), c) + (if s[i] == c {
            1int
        } else {
            0int
        }),
{
    reveal(Seq::filter);
    let t = s.take(i + 1);
    assert(t.drop_last() =~= s.take(i));
    assert(t.last() == s[i]);
}

proof fn lemma_count_pos_implies_contains(s: Seq<char>, c: char)
    requires
        count_occ(s, c) > 0,
    ensures
        s.contains(c),
    decreases s.len(),
{
    reveal(Seq::filter);
    if s.len() > 0 {
        if s.last() == c {
            assert(s[s.len() - 1] == c);
        } else {
            lemma_count_pos_implies_contains(s.drop_last(), c);
            let i = choose|i: int| 0 <= i < s.drop_last().len() && s.drop_last()[i] == c;
            assert(s[i] == c);
        }
    }
}

proof fn lemma_contains_implies_count_pos(s: Seq<char>, c: char)
    requires
        s.contains(c),
    ensures
        count_occ(s, c) > 0,
    decreases s.len(),
{
    reveal(Seq::filter);
    let i = choose|i: int| 0 <= i < s.len() && s[i] == c;
    if s.last() != c {
        assert(s.drop_last()[i] == c);
        lemma_contains_implies_count_pos(s.drop_last(), c);
    }
}

/// A signature that passes validation holds at least one opening parenthesis,
/// so the split of the name from the parameters always succeeds on it.
pub proof fn lemma_valid_has_open(s: Seq<char>)
    requires
        valid_signature(s),
    ensures
        s.contains('('),
{
    assert(s.contains(')'));
    lemma_contains_implies_count_pos(s, ')');
    lemma_count_pos_implies_contains(s, '(');
}

/// The name portion of a cleaned signature: everything before the first
/// opening parenthesis.
pub open spec fn name_of(c: Seq<char>) -> Seq<char> {
    match c.index_of_first('(') {
        Some(i) => c.take(i),
        None => Seq::empty(),
    }
}

/// The parameter portion of a cleaned signature: the first opening
/// parenthesis and everything after it.
pub open spec fn params_of(c: Seq<char>) -> Seq<char> {
    match c.index_of_first('(') {
        Some(i) => c.skip(i),
        None => Seq::empty(),
    }
}

/// Removes every whitespace character from the given signature string.
pub fn remove_whitespaces(function_sig: &str) -> (r: String)
    ensures
        r@ == cleaned(function_sig@),
{
    let n = function_sig.unicode_len();
    let mut out = String::new();
    let mut i: usize = 0;
    while i < n
        invariant
            i <= n,
            n == function_sig@.len(),
            out@ == cleaned(function_sig@.take(i as int)),
        decreases n - i,
    {
        let c = function_sig.get_char(i);
        proof {
            lemma_cleaned_take_step(function_sig@, i as int);
        }
        if !c.is_whitespace() {
            out.push(c);
        }
        i += 1;
    }
    proof {
        assert(function_sig@.take(n as int) =~= function_sig@);
    }
    out
}

/// Makes sure there are no issues with parenthesis in the cleaned function
/// signature: it must end with `)` and hold as many `(` as `)`.
pub fn verify_parenthesis(function_sig: &str) -> (r: Result<(), PreProcessError>)
    ensures
        r is Ok <==> valid_signature(function_sig@),
        !ends_with_close(function_sig@) ==> (r matches Err(e)
            && e matches PreProcessError::InvalidFunctionSignatureParenthesis(m) && m@
            == "function signature doesn't end with a closing parenthesis"@),
        ends_with_close(function_sig@) && !balanced_parens(function_sig@) ==> (r matches Err(e)
            && e matches PreProcessError::InvalidFunctionSignatureParenthesis(m) && m@
            == "function signature doesn't have the same number of opening and closing parenthesis"@),
{
    let n = function_sig.unicode_len();
    if n == 0 || function_sig.get_char(n - 1) != ')' {
        return Err(
            PreProcessError::InvalidFunctionSignatureParenthesis(
                "function signature doesn't end with a closing parenthesis".to_owned(),
            ),
        );
    }
    let mut opens: usize = 0;
    let mut closes: usize = 0;
    let mut i: usize = 0;
    while i < n
        invariant
            i <= n,
            n == function_sig@.len(),
            opens <= i,
            closes <= i,
            opens == count_occ(function_sig@.take(i as int), '('),
            closes == count_occ(function_sig@.take(i as int), ')'),
        decreases n - i,
    {
        let c = function_sig.get_char(i);
        proof {
            lemma_count_take_step(function_sig@, '(', i as int);
            lemma_count_take_step(function_sig@, ')', i as int);
        }
        if c == '(' {
            opens += 1;
        }
        if c == ')' {
            closes += 1;
        }
        i += 1;
    }
    proof {
        assert(function_sig@.take(n as int) =~= function_sig@);
    }
    if opens != closes {
        Err(
            PreProcessError::InvalidFunctionSignatureParenthesis(
                "function signature doesn't have the same number of opening and closing parenthesis".to_owned(),
            ),
        )
    } else {
        Ok(())
    }
}

/// Tries to validate that the cleaned function signature is valid for
/// further usage.
pub fn try_validate(function_sig: &str) -> (r: Result<(), PreProcessError>)
    ensures
        r is Ok <==> valid_signature(function_sig@),
        !ends_with_close(function_sig@) ==> (r matches Err(e)
            && e matches PreProcessError::InvalidFunctionSignatureParenthesis(m) && m@
            == "function signature doesn't end with a closing parenthesis"@),
        ends_with_close(function_sig@) && !balanced_parens(function_sig@) ==> (r matches Err(e)
            && e matches PreProcessError::InvalidFunctionSignatureParenthesis(m) && m@
            == "function signature doesn't have the same number of opening and closing parenthesis"@),
{
    verify_parenthesis(function_sig)
}

/// Splits the cleaned function signature at its first opening parenthesis:
/// the prefix becomes the name, the rest (the parenthesis included) the
/// parameter list.
pub fn try_parse(function_signature: &str) -> (r: Result<FunctionSignature, PreProcessError>)
    ensures
        r is Ok <==> function_signature@.contains('('),
        r matches Ok(f) ==> (function_signature@.index_of_first('(') matches Some(i) && f.name@
            == function_signature@.take(i) && f.params@ == function_signature@.skip(i)),
        r matches Ok(f) ==> f.params@.len() > 0 && f.params@[0] == '(',
        r matches Err(e) ==> (e matches PreProcessError::ErrorRegexParsing(m) && m@
            == "could not parse function signature correctly"@),
{
    let n = function_signature.unicode_len();
    let mut i: usize = 0;
    while i < n && function_signature.get_char(i) != '('
        invariant
            i <= n,
            n == function_signature@.len(),
            forall|j: int| 0 <= j < i ==> function_signature@[j] != '(',
        decreases n - i,
    {
        i += 1;
    }
    proof {
        function_signature@.index_of_first_ensures('(');
    }
    if i == n {
        assert(!function_signature@.contains('('));
        Err(
            PreProcessError::ErrorRegexParsing(
                "could not parse function signature correctly".to_owned(),
            ),
        )
    } else {
        assert(function_signature@.contains('(')) by {
            assert(function_signature@[i as int] == '(');
        }
        let name = function_signature.substring_char(0, i).to_owned();
        let params = function_signature.substring_char(i, n).to_owned();
        Ok(FunctionSignature { name, params })
    }
}

/// Validates and splits a raw signature string: whitespace is removed, the
/// parenthesis structure is checked, and the result is split at the first
/// opening parenthesis into a name and a parameter list.
pub fn try_preprocess(function_signature: &str) -> (r: Result<
    FunctionSignature,
    PreProcessError,
>)
    ensures
        ({
            let c = cleaned(function_signature@);
            &&& (r is Ok <==> valid_signature(c))
            &&& (r matches Ok(f) ==> (c.index_of_first('(') matches Some(i) && f.name@ == c.take(i)
                && f.params@ == c.skip(i)))
            &&& (r matches Ok(f) ==> f.params@.len() > 0 && f.params@[0] == '(')
            &&& (!ends_with_close(c) ==> (r matches Err(e)
                && e matches PreProcessError::InvalidFunctionSignatureParenthesis(m) && m@
                == "function signature doesn't end with a closing parenthesis"@))
            &&& (ends_with_close(c) && !balanced_parens(c) ==> (r matches Err(e)
                && e matches PreProcessError::InvalidFunctionSignatureParenthesis(m) && m@
                == "function signature doesn't have the same number of opening and closing parenthesis"@))
        }),
{
    let cleaned_function_signature = remove_whitespaces(function_signature);
    match try_validate(cleaned_function_signature.as_str()) {
        Err(e) => Err(e),
        Ok(()) => {
            proof {
                lemma_valid_has_open(cleaned(function_signature@));
            }
            try_parse(cleaned_function_signature.as_str())
        },
    }
}

impl Default for FunctionSignature {
    /// An empty name and an empty parameter list.
    fn default() -> (r: Self)
        ensures
            r.name@ == Seq::<char>::empty(),
            r.params@ == Seq::<char>::empty(),
    {
        FunctionSignature { name: String::new(), params: String::new() }
    }
}

} // verus!
