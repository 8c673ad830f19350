//! Keys that name served files and daemon sessions: three code words joined by dashes.
use crate::config::Config;
use vstd::prelude::*;

verus! {

/// Three words joined by `-`.
pub open spec fn join_key(a: Seq<char>, b: Seq<char>, c: Seq<char>) -> Seq<char> {
    a + seq!['-'] + b + seq!['-'] + c
}

/// The key made of the code words at positions `i`, `j` and `k`.
pub open spec fn code_key(words: Seq<&str>, i: int, j: int, k: int) -> Seq<char> {
    join_key(words[i]@, words[j]@, words[k]@)
}

/// Calls `rand::rng().random_range(0..bound)`, which draws an index below
/// `bound` from the thread-local generator. Nothing is said of which index
/// comes back beyond that bound: it rests on chance.
#[verifier::external_body]
fn random_index(bound: usize) -> (i: usize)
    requires
        bound > 0,
    ensures
        i < bound,
{
    rand::RngExt::random_range(&mut rand::rng(), 0..bound)
}

/// The key made of the code words at the given positions.
pub fn key_from_indices(config: &Config, i: usize, j: usize, k: usize) -> (key: String)
    requires
        i < config.code_words@.len(),
        j < config.code_words@.len(),
        k < config.code_words@.len(),
    ensures
        key@ == code_key(config.code_words@, i as int, j as int, k as int),
{
    let dash = "-";
    proof {
        reveal_strlit("-");
    }
    let mut key = String::from_str(config.code_words[i]);
    key.append(dash);
    key.append(config.code_words[j]);
    key.append(dash);
    key.append(config.code_words[k]);
    key
}

/// A fresh random key: three code words, each drawn independently, joined by `-`.
pub fn generate_key(config: &Config) -> (key: String)
    requires
        config.code_words@.len() > 0,
    ensures
        exists|i: int, j: int, k: int|
            0 <= i < config.code_words@.len() && 0 <= j < config.code_words@.len() && 0 <= k
                < config.code_words@.len() && key@ == code_key(config.code_words@, i, j, k),
{
    let n = config.code_words.len();
    let i = random_index(n);
    let j = random_index(n);
    let k = random_index(n);
    key_from_indices(config, i, j, k)
}

} // verus!
