//! The combinatorial suffix generator and the selector search.

use vstd::prelude::*;
use vstd::seq_lib::*;
use vstd::string::StringExecFns;
use itertools::Itertools;

verus! {

/// How many symbols the suffix alphabet holds.
pub const ALPHABET_SIZE: usize = 64;

/// The largest suffix length bound the generator accepts.  The search space
/// grows as a power of 64 in this bound, so larger bounds could neither be
/// generated nor searched anyway.
pub const MAX_SUFFIX_LENGTH: u8 = 6;

/// The fixed 64-symbol alphabet, in the order that defines "first match"
/// downstream: digits, lower-case letters, upper-case letters, `$`, `_`.
pub open spec fn alphabet() -> Seq<char> {
    seq![
        '0', '1', '2', '3', '4', '5', '6', '7', '8', '9', 'a', 'b', 'c', 'd', 'e', 'f', 'g', 'h',
        'i', 'j', 'k', 'l', 'm', 'n', 'o', 'p', 'q', 'r', 's', 't', 'u', 'v', 'w', 'x', 'y', 'z',
        'A', 'B', 'C', 'D', 'E', 'F', 'G', 'H', 'I', 'J', 'K', 'L', 'M', 'N', 'O', 'P', 'Q', 'R',
        'S', 'T', 'U', 'V', 'W', 'X', 'Y', 'Z', '$', '_',
    ]
}

/// The position of a character in the alphabet, and -1 for a character
/// outside it.
pub open spec fn symbol_index(c: char) -> int {
    let k = c as int;
    if '0' as int <= k && k <= '9' as int {
        k - '0' as int
    } else if 'a' as int <= k && k <= 'z' as int {
        10 + k - 'a' as int
    } else if 'A' as int <= k && k <= 'Z' as int {
        36 + k - 'A' as int
    } else if c == '$' {
        62
    } else if c == '_' {
        63
    } else {
        -1
    }
}

#[verifier::rlimit(50)]
proof fn lemma_alphabet_inverse()
    ensures
        alphabet().len() == 64,
        forall|i: int| 0 <= i < 64 ==> symbol_index(#[trigger] alphabet()[i]) == i,
{
}

/// Every string of `prefixes` extended by every alphabet symbol, the symbol
/// varying fastest.
pub open spec fn extend_block(prefixes: Seq<Seq<char>>) -> Seq<Seq<char>> {
    Seq::new(prefixes.len() * 64, |k: int| prefixes[k / 64].push(alphabet()[k % 64]))
}

/// All suffixes of length `n` over the alphabet, in odometer order: the
/// rightmost symbol varies fastest.
pub open spec fn block(n: nat) -> Seq<Seq<char>>
    decreases n,
{
    if n <= 1 {
        Seq::new(64, |i: int| seq![alphabet()[i]])
    } else {
        extend_block(block((n - 1) as nat))
    }
}

/// The blocks of lengths 1 through `m`, shortest first.
pub open spec fn blocks_upto(m: nat) -> Seq<Seq<char>>
    decreases m,
{
    if m <= 1 {
        block(1)
    } else {
        blocks_upto((m - 1) as nat) + block(m)
    }
}

/// The longest suffix length the generator emits for a given length bound:
/// one less than the bound, except that a bound of 1 (or 0) still yields the
/// single-symbol block.
pub open spec fn max_suffix_len(suffix_length: u8) -> nat {
    if suffix_length <= 2 {
        1
    } else {
        (suffix_length - 1) as nat
    }
}

/// The whole ordered search space for a given length bound.
pub open spec fn spec_combinations(suffix_length: u8) -> Seq<Seq<char>> {
    blocks_upto(max_suffix_len(suffix_length))
}

/// The n-th power of 64.
pub open spec fn pow64(n: nat) -> nat
    decreases n,
{
    if n == 0 {
        1
    } else {
        64 * pow64((n - 1) as nat)
    }
}

/// 64 + 64^2 + ... + 64^m, the number of suffixes of lengths 1 through `m`.
pub open spec fn total_combinations(m: nat) -> nat
    decreases m,
{
    if m == 0 {
        0
    } else {
        total_combinations((m - 1) as nat) + pow64(m)
    }
}

proof fn lemma_pow64_increases(a: nat, b: nat)
    requires
        a <= b,
    ensures
        pow64(a) <= pow64(b),
    decreases b,
{
    if a < b {
        lemma_pow64_increases(a, (b - 1) as nat);
    }
}

proof fn lemma_extend_index(prefixes: Seq<Seq<char>>, k: int)
    requires
        0 <= k < prefixes.len() * 64,
    ensures
        0 <= k / 64 < prefixes.len(),
        0 <= k % 64 < 64,
        k == 64 * (k / 64) + k % 64,
{
    assert(0 <= k / 64 < prefixes.len() && 0 <= k % 64 < 64 && k == 64 * (k / 64) + k % 64)
        by (nonlinear_arith)
        requires
            0 <= k < prefixes.len() * 64,
    ;
}

/// The block of length `n` holds exactly the 64^n suffixes of length `n`,
/// each once.
pub proof fn lemma_block_props(n: nat)
    requires
        n >= 1,
    ensures
        block(n).len() == pow64(n),
        forall|i: int| 0 <= i < block(n).len() ==> (#[trigger] block(n)[i]).len() == n,
        block(n).no_duplicates(),
    decreases n,
{
    lemma_alphabet_inverse();
    assert(pow64(0) == 1);
    if n == 1 {
        assert forall|i: int, j: int|
            0 <= i < block(1).len() && 0 <= j < block(1).len() && i != j implies block(1)[i]
            != block(1)[j] by {
            assert(block(1)[i][0] == alphabet()[i]);
            assert(block(1)[j][0] == alphabet()[j]);
            assert(symbol_index(alphabet()[i]) == i);
            assert(symbol_index(alphabet()[j]) == j);
        }
    } else {
        let m = (n - 1) as nat;
        lemma_block_props(m);
        let b = block(m);
        assert(block(n) == extend_block(b));
        assert(b.len() * 64 == 64 * pow64(m));
        assert forall|i: int| 0 <= i < block(n).len() implies (#[trigger] block(n)[i]).len()
            == n by {
            lemma_extend_index(b, i);
        }
        assert forall|i: int, j: int|
            0 <= i < block(n).len() && 0 <= j < block(n).len() && i != j implies block(n)[i]
            != block(n)[j] by {
            lemma_extend_index(b, i);
            lemma_extend_index(b, j);
            let pi = b[i / 64];
            let pj = b[j / 64];
            let ci = alphabet()[i % 64];
            let cj = alphabet()[j % 64];
            if block(n)[i] == block(n)[j] {
                assert(pi.push(ci) == pj.push(cj));
                assert(pi.push(ci).last() == ci);
                assert(ci == cj);
                assert(symbol_index(ci) == i % 64);
                assert(symbol_index(cj) == j % 64);
                assert(i % 64 == j % 64);
                assert(pi.push(ci).drop_last() =~= pi);
                assert(pj.push(cj).drop_last() =~= pj);
                assert(pi == pj);
                assert(i / 64 == j / 64);
            }
        }
    }
}

/// The blocks up to length `m` hold `total_combinations(m)` suffixes, each
/// of a length between 1 and `m`, each once, grouped by increasing length.
pub proof fn lemma_blocks_upto_props(m: nat)
    requires
        m >= 1,
    ensures
        blocks_upto(m).len() == total_combinations(m),
        forall|i: int|
            0 <= i < blocks_upto(m).len() ==> 1 <= (#[trigger] blocks_upto(m)[i]).len() <= m,
        blocks_upto(m).no_duplicates(),
    decreases m,
{
    lemma_block_props(m);
    if m == 1 {
        assert(total_combinations(0) == 0);
    } else {
        let p = (m - 1) as nat;
        lemma_blocks_upto_props(p);
        let head = blocks_upto(p);
        let tail = block(m);
        assert(blocks_upto(m) == head + tail);
        assert forall|i: int, j: int|
            0 <= i < blocks_upto(m).len() && 0 <= j < blocks_upto(m).len() && i != j implies
            blocks_upto(m)[i] != blocks_upto(m)[j] by {
            let a = blocks_upto(m)[i];
            let b = blocks_upto(m)[j];
            if i < head.len() && j < head.len() {
                assert(a == head[i] && b == head[j]);
            } else if i >= head.len() && j >= head.len() {
                assert(a == tail[i - head.len()] && b == tail[j - head.len()]);
            } else if i < head.len() {
                assert(a.len() <= p && b.len() == m);
            } else {
                assert(a.len() == m && b.len() <= p);
            }
        }
    }
}

fn single(c: char) -> (r: String)
    ensures
        r@ == seq![c],
{
    let mut s = String::new();
    s.push(c);
    proof {
        assert(Seq::<char>::empty().push(c) =~= seq![c]);
    }
    s
}

fn clone_string_vec(v: &Vec<String>) -> (r: Vec<String>)
    ensures
        r@ == v@,
{
    let mut out: Vec<String> = Vec::new();
    let mut i: usize = 0;
    while i < v.len()
        invariant
            i <= v@.len(),
            out@ == v@.take(i as int),
        decreases v@.len() - i,
    {
        out.push(v[i].clone());
        proof {
            assert(v@.take(i + 1) =~= v@.take(i as int).push(v@[i as int]));
        }
        i += 1;
    }
    proof {
        assert(v@.take(v@.len() as int) =~= v@);
    }
    out
}

/// The 64 single-symbol strings, in alphabet order.
#[verifier::rlimit(100)]
fn build_dictionary() -> (r: Vec<String>)
    ensures
        r.deep_view() == block(1),
        r@.len() == ALPHABET_SIZE,
{
    let mut d: Vec<String> = Vec::new();
    d.push(single('0'));
    d.push(single('1'));
    d.push(single('2'));
    d.push(single('3'));
    d.push(single('4'));
    d.push(single('5'));
    d.push(single('6'));
    d.push(single('7'));
    d.push(single('8'));
    d.push(single('9'));
    d.push(single('a'));
    d.push(single('b'));
    d.push(single('c'));
    d.push(single('d'));
    d.push(single('e'));
    d.push(single('f'));
    d.push(single('g'));
    d.push(single('h'));
    d.push(single('i'));
    d.push(single('j'));
    d.push(single('k'));
    d.push(single('l'));
    d.push(single('m'));
    d.push(single('n'));
    d.push(single('o'));
    d.push(single('p'));
    d.push(single('q'));
    d.push(single('r'));
    d.push(single('s'));
    d.push(single('t'));
    d.push(single('u'));
    d.push(single('v'));
    d.push(single('w'));
    d.push(single('x'));
    d.push(single('y'));
    d.push(single('z'));
    d.push(single('A'));
    d.push(single('B'));
    d.push(single('C'));
    d.push(single('D'));
    d.push(single('E'));
    d.push(single('F'));
    d.push(single('G'));
    d.push(single('H'));
    d.push(single('I'));
    d.push(single('J'));
    d.push(single('K'));
    d.push(single('L'));
    d.push(single('M'));
    d.push(single('N'));
    d.push(single('O'));
    d.push(single('P'));
    d.push(single('Q'));
    d.push(single('R'));
    d.push(single('S'));
    d.push(single('T'));
    d.push(single('U'));
    d.push(single('V'));
    d.push(single('W'));
    d.push(single('X'));
    d.push(single('Y'));
    d.push(single('Z'));
    d.push(single('$'));
    d.push(single('_'));
    proof {
        assert(d.deep_view() =~= block(1));
    }
    d
}

/// Joins two strings.
fn join(a: &String, b: &String) -> (r: String)
    ensures
        r@ == a@ + b@,
{
    let mut out = a.clone();
    out.append(b.as_str());
    out
}

/// Relies on `itertools::Itertools::cartesian_product`: the pairs come in
/// order, the left element varying slowest and the right one fastest.
#[verifier::external_body]
fn product_concat(prefixes: &Vec<String>, symbols: &Vec<String>) -> (r: Vec<String>)
    requires
        symbols@.len() > 0,
        prefixes@.len() * symbols@.len() <= usize::MAX,
    ensures
        r@.len() == prefixes@.len() * symbols@.len(),
        forall|k: int|
            0 <= k < r@.len() ==> r@[k]@ == prefixes@[k / (symbols@.len() as int)]@ + symbols@[k
                % (symbols@.len() as int)]@,
{
    prefixes.iter().cartesian_product(symbols.iter()).map(|(a, b)| join(a, b)).collect()
}

/// Creates a vector containing all suffix combinations over the alphabet,
/// grouped by increasing length, stopping before the length reaches the
/// provided `suffix_length`.
pub fn build_combinations(suffix_length: u8) -> (r: Vec<String>)
    requires
        suffix_length <= MAX_SUFFIX_LENGTH,
    ensures
        r.deep_view() == spec_combinations(suffix_length),
{
    let dictionary = build_dictionary();
    let mut combinations = clone_string_vec(&dictionary);
    let mut current = clone_string_vec(&dictionary);
    let mut n: u8 = 1;
    proof {
        assert(combinations.deep_view() =~= dictionary.deep_view());
        assert(current.deep_view() =~= dictionary.deep_view());
    }
    while n + 1 < suffix_length
        invariant
            suffix_length <= MAX_SUFFIX_LENGTH,
            1 <= n,
            n as nat <= max_suffix_len(suffix_length),
            dictionary.deep_view() == block(1),
            dictionary@.len() == 64,
            current.deep_view() == block(n as nat),
            combinations.deep_view() == blocks_upto(n as nat),
        decreases MAX_SUFFIX_LENGTH - n,
    {
        proof {
            lemma_block_props(n as nat);
            lemma_pow64_increases(n as nat, 4);
            assert(pow64(1) == 64 * pow64(0));
            assert(pow64(2) == 64 * pow64(1));
            assert(pow64(3) == 64 * pow64(2));
            assert(pow64(4) == 64 * pow64(3));
            assert(pow64(0) == 1);
            assert(pow64(4) * 64 == 1073741824);
            assert(current@.len() == current.deep_view().len());
        }
        current = product_concat(&current, &dictionary);
        proof {
            let b = block(n as nat);
            assert forall|k: int| 0 <= k < current.deep_view().len() implies current.deep_view()[k]
                == extend_block(b)[k] by {
                lemma_extend_index(b, k);
                assert(dictionary.deep_view()[k % 64] == seq![alphabet()[k % 64]]);
                assert(b[k / 64] + seq![alphabet()[k % 64]] =~= b[k / 64].push(alphabet()[k % 64]));
            }
            assert(current.deep_view() =~= extend_block(b));
            assert(block((n + 1) as nat) == extend_block(b));
        }
        let mut tail = clone_string_vec(&current);
        proof {
            assert(tail.deep_view() =~= current.deep_view());
        }
        let ghost old_combinations = combinations.deep_view();
        combinations.append(&mut tail);
        proof {
            assert(combinations.deep_view() =~= old_combinations + block((n + 1) as nat));
            assert(blocks_upto((n + 1) as nat) == blocks_upto(n as nat) + block((n + 1) as nat));
        }
        n += 1;
    }
    combinations
}

/// How many leading bytes of the digest are ever inspected: an explicit
/// design constant, independent of the digest's full width.
pub const INSPECTED_BYTES: u8 = 4;

/// The full signature a candidate suffix yields: the name prefix, the
/// suffix, then the parameter list.
pub open spec fn full_signature(prefix: Seq<char>, candidate: Seq<char>, params: Seq<char>) -> Seq<
    char,
> {
    prefix + candidate + params
}

/// Whether a digest begins with `target` zero bytes.  Only the inspected
/// window is examined, so a target beyond it is never met.
pub open spec fn digest_meets_target(digest: Seq<u8>, target: u8) -> bool {
    target <= INSPECTED_BYTES && (forall|i: int| 0 <= i < target ==> digest[i] == 0u8)
}

/// Whether the digest of `full` begins with `target` zero bytes.
pub open spec fn spec_qualifies(full: Seq<char>, target: u8) -> bool {
    digest_meets_target(crate::digest::keccak256_of(full), target)
}

/// Whether the given digest begins with `target` zero bytes.  Only the first
/// `INSPECTED_BYTES` bytes are ever examined, so any target beyond that
/// window is rejected.
pub fn leading_zeros_meet_target(digest: &Vec<u8>, target: u8) -> (r: bool)
    requires
        digest@.len() >= INSPECTED_BYTES,
    ensures
        r == digest_meets_target(digest@, target),
{
    if target > INSPECTED_BYTES {
        return false;
    }
    let mut i: u8 = 0;
    while i < target
        invariant
            i <= target,
            target <= INSPECTED_BYTES,
            digest@.len() >= INSPECTED_BYTES,
            forall|j: int| 0 <= j < i ==> digest@[j] == 0u8,
        decreases target - i,
    {
        if digest[i as usize] != 0 {
            return false;
        }
        i += 1;
    }
    true
}

/// Whether `i` is the position of the first candidate whose full signature
/// meets the target.
pub open spec fn is_first_match(
    prefix: Seq<char>,
    params: Seq<char>,
    candidates: Seq<Seq<char>>,
    target: u8,
    i: int,
) -> bool {
    &&& 0 <= i < candidates.len()
    &&& spec_qualifies(full_signature(prefix, candidates[i], params), target)
    &&& forall|j: int|
        0 <= j < i ==> !spec_qualifies(full_signature(prefix, #[trigger] candidates[j], params), target)
}

/// What the search must return: the first qualifying candidate of the given
/// order, or nothing when the candidate list is exhausted.
pub open spec fn is_search_result(
    prefix: Seq<char>,
    params: Seq<char>,
    candidates: Seq<Seq<char>>,
    target: u8,
    r: Option<Seq<char>>,
) -> bool {
    match r {
        Some(s) => exists|i: int|
            #[trigger] is_first_match(prefix, params, candidates, target, i) && s == candidates[i],
        None => forall|j: int|
            0 <= j < candidates.len() ==> !spec_qualifies(
                full_signature(prefix, #[trigger] candidates[j], params),
                target,
            ),
    }
}

/// Whether the candidate's full signature digests to at least `target`
/// leading zero bytes.
pub fn candidate_matches(name_prefix: &str, candidate: &str, params: &str, target: u8) -> (r: bool)
    ensures
        r == spec_qualifies(full_signature(name_prefix@, candidate@, params@), target),
{
    let mut full = name_prefix.to_owned();
    full.append(candidate);
    full.append(params);
    let digest = crate::digest::keccak256(full.as_str());
    leading_zeros_meet_target(&digest, target)
}

/// Finds the first candidate, in the order of the given list, whose
/// reconstructed signature digests to at least `optimization_target` leading
/// zero bytes; `None` when the list is exhausted without a match.
pub fn find_optimization(
    initial_function_name: &str,
    initial_function_parameters: &str,
    combinations: &Vec<String>,
    optimization_target: u8,
) -> (r: Option<String>)
    ensures
        is_search_result(
            initial_function_name@,
            initial_function_parameters@,
            combinations.deep_view(),
            optimization_target,
            r.deep_view(),
        ),
        optimization_target > INSPECTED_BYTES ==> r is None,
        optimization_target == 0 && combinations@.len() > 0 ==> (r matches Some(s) && s@
            == combinations@[0]@),
{
    let ghost prefix = initial_function_name@;
    let ghost params = initial_function_parameters@;
    let ghost cands = combinations.deep_view();
    let n = combinations.len();
    let mut idx: usize = 0;
    while idx < n
        invariant
            idx <= n,
            n == combinations@.len(),
            prefix == initial_function_name@,
            params == initial_function_parameters@,
            cands == combinations.deep_view(),
            forall|j: int|
                0 <= j < idx ==> !spec_qualifies(
                    full_signature(prefix, #[trigger] cands[j], params),
                    optimization_target,
                ),
        decreases n - idx,
    {
        if candidate_matches(
            initial_function_name,
            combinations[idx].as_str(),
            initial_function_parameters,
            optimization_target,
        ) {
            let found = combinations[idx].clone();
            proof {
                assert(is_first_match(prefix, params, cands, optimization_target, idx as int));
                assert(found@ == cands[idx as int]);
                if optimization_target == 0 {
                    assert(spec_qualifies(full_signature(prefix, cands[0], params), 0));
                    assert(idx == 0);
                }
            }
            return Some(found);
        }
        idx += 1;
    }
    proof {
        if optimization_target == 0 && combinations@.len() > 0 {
            assert(spec_qualifies(full_signature(prefix, cands[0], params), 0));
            assert(false);
        }
    }
    None
}

/// With a target of zero every candidate qualifies, so the search returns
/// the very first candidate of the generator's order.
pub proof fn lemma_target_zero_qualifies(full: Seq<char>)
    ensures
        spec_qualifies(full, 0),
{
}

/// A target beyond the inspected four-byte window can never be satisfied:
/// such a search always reports exhaustion.
pub proof fn lemma_target_beyond_window(full: Seq<char>, target: u8)
    requires
        target > INSPECTED_BYTES,
    ensures
        !spec_qualifies(full, target),
{
}

/// The search outcome is determined by its inputs alone: any two results
/// that satisfy the search contract are equal, however (and in whatever
/// parallel order) the candidates were examined.
pub proof fn lemma_search_result_unique(
    prefix: Seq<char>,
    params: Seq<char>,
    candidates: Seq<Seq<char>>,
    target: u8,
    r1: Option<Seq<char>>,
    r2: Option<Seq<char>>,
)
    requires
        is_search_result(prefix, params, candidates, target, r1),
        is_search_result(prefix, params, candidates, target, r2),
    ensures
        r1 == r2,
{
    match (r1, r2) {
        (Some(s1), Some(s2)) => {
            let i1 = choose|i: int|
                #[trigger] is_first_match(prefix, params, candidates, target, i) && s1
                    == candidates[i];
            let i2 = choose|i: int|
                #[trigger] is_first_match(prefix, params, candidates, target, i) && s2
                    == candidates[i];
            if i1 < i2 {
                assert(!spec_qualifies(full_signature(prefix, candidates[i1], params), target));
            } else if i2 < i1 {
                assert(!spec_qualifies(full_signature(prefix, candidates[i2], params), target));
            }
        },
        (Some(s1), None) => {
            let i1 = choose|i: int|
                #[trigger] is_first_match(prefix, params, candidates, target, i) && s1
                    == candidates[i];
            assert(!spec_qualifies(full_signature(prefix, candidates[i1], params), target));
        },
        (None, Some(s2)) => {
            let i2 = choose|i: int|
                #[trigger] is_first_match(prefix, params, candidates, target, i) && s2
                    == candidates[i];
            assert(!spec_qualifies(full_signature(prefix, candidates[i2], params), target));
        },
        (None, None) => {},
    }
}

/// Repeated generation is reproducible: the generator's contract pins its
/// result as a function of the length bound alone, so two runs agree.
pub proof fn lemma_combinations_reproducible(
    suffix_length: u8,
    r1: Seq<Seq<char>>,
    r2: Seq<Seq<char>>,
)
    requires
        r1 == spec_combinations(suffix_length),
        r2 == spec_combinations(suffix_length),
    ensures
        r1 == r2,
{
}

/// The generated space holds exactly 64 + 64^2 + ... + 64^(L-1) suffixes
/// for a bound L of at least 2 (and the 64 single-symbol suffixes for a
/// smaller bound), without duplicates, grouped by increasing length.
pub proof fn lemma_combinations_props(suffix_length: u8)
    ensures
        spec_combinations(suffix_length).len() == total_combinations(max_suffix_len(suffix_length)),
        spec_combinations(suffix_length).no_duplicates(),
        forall|i: int|
            0 <= i < spec_combinations(suffix_length).len() ==> 1 <= (
            #[trigger] spec_combinations(suffix_length)[i]).len() <= max_suffix_len(suffix_length),
{
    lemma_blocks_upto_props(max_suffix_len(suffix_length));
}

} // verus!
