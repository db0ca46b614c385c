//! The random decision stream: fair coin flips drawn in blocks of 64 bits and
//! consumed least significant bit first.
use rand::Rng;
use vstd::prelude::*;

verus! {

/// Whether bit `i` of `word` is set, bit 0 being the least significant.
pub open spec fn bit_of(word: u64, i: u64) -> bool {
    (word >> i) & 1u64 == 1u64
}

/// The `j`-th decision of a stream of words: bit `j % 64` of word `j / 64`.
pub open spec fn decision(words: Seq<u64>, j: int) -> bool {
    bit_of(words[j / 64], (j % 64) as u64)
}

/// Relies on `rand::rng` and `Rng::sample_iter` with `Uniform::new(0, u64::MAX)`:
/// `n` words drawn from the thread's generator, each below `u64::MAX`. The
/// uniform range is never empty, so `new` does not fail.
#[verifier::external_body]
fn random_words(n: usize) -> (r: Vec<u64>)
    ensures
        r@.len() == n,
        forall|i: int| 0 <= i < n ==> r@[i] < u64::MAX,
{
    let distr = rand::distr::Uniform::new(0, u64::MAX).unwrap();
    rand::rng().sample_iter(&distr).take(n).collect()
}

/// How many 64-bit words an iteration budget draws: one per 64 decisions.
pub fn word_count(budget: u32) -> (r: usize)
    ensures
        r == budget / 64,
{
    (budget / 64) as usize
}

/// Bit `i` of `word`, least significant first: the decision taken at that step.
pub fn decision_bit(word: u64, i: u64) -> (r: bool)
    requires
        i < 64,
    ensures
        r == bit_of(word, i),
{
    let r = word & (1u64 << i) != 0;
    assert((word & (1u64 << i) != 0) == ((word >> i) & 1u64 == 1u64)) by (bit_vector)
        requires
            i < 64,
    ;
    r
}

/// A fresh block of random words for an iteration budget: `budget / 64` of them.
pub fn draw_decision_words(budget: u32) -> (r: Vec<u64>)
    ensures
        r@.len() == budget / 64,
{
    random_words(word_count(budget))
}

} // verus!
