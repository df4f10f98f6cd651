//! Trusted boundary to the pseudo-random sources.
//!
//! The sampler draws barycentric parameters from `fastrand` and triangle
//! indices from a `rand_distr` weighted alias distribution fed by
//! `rand::thread_rng`.  Nothing is promised of any individual draw beyond
//! its range; every use downstream is verified for every possible outcome.

use vstd::prelude::*;

verus! {

/// Sum of a sequence of weights.
pub open spec fn seq_sum(s: Seq<u64>) -> int
    decreases s.len(),
{
    if s.len() == 0 {
        0
    } else {
        seq_sum(s.drop_last()) + s.last()
    }
}

/// The sum of unsigned weights is never negative.
pub proof fn lemma_seq_sum_nonneg(s: Seq<u64>)
    ensures
        seq_sum(s) >= 0,
    decreases s.len(),
{
    if s.len() > 0 {
        lemma_seq_sum_nonneg(s.drop_last());
    }
}

/// The sum of unsigned weights is at least any one of them.
pub proof fn lemma_seq_sum_ge_elem(s: Seq<u64>, i: int)
    requires
        0 <= i < s.len(),
    ensures
        seq_sum(s) >= s[i],
    decreases s.len(),
{
    lemma_seq_sum_nonneg(s.drop_last());
    if i == s.len() - 1 {
        assert(s.last() == s[i]);
    } else {
        lemma_seq_sum_ge_elem(s.drop_last(), i);
        assert(s.drop_last()[i] == s[i]);
    }
}

/// An alias-method distribution over triangle weights.  Verus cannot take
/// `rand_distr::WeightedAliasIndex`'s declaration (its weight trait bound),
/// so the distribution sits in a private field of an opaque struct, reached
/// only through the two trusted wrappers below.
#[verifier::external_body]
pub struct AliasDist {
    inner: rand_distr::WeightedAliasIndex<u64>,
}

/// The weights a distribution was built from.
pub uninterp spec fn alias_weights(d: AliasDist) -> Seq<u64>;

/// Relies on rand_distr::WeightedAliasIndex::new with u64 weights: it
/// accepts exactly the weight vectors that are non-empty, no longer than
/// u32::MAX, whose every weight is at most u64::MAX / len, and whose sum is
/// positive; any other vector is reported as an error, which this wrapper
/// folds to None.
#[verifier::external_body]
pub(crate) fn alias_new(weights: &Vec<u64>) -> (r: Option<AliasDist>)
    ensures
        r is Some <==> {
            &&& 1 <= weights@.len() <= u32::MAX
            &&& forall|k: int|
                0 <= k < weights@.len() ==> (#[trigger] weights@[k]) as int <= (u64::MAX as int) / (
                weights@.len() as int)
            &&& seq_sum(weights@) >= 1
        },
        r is Some ==> alias_weights(r->Some_0) == weights@,
{
    match rand_distr::WeightedAliasIndex::new(weights.clone()) {
        Ok(d) => Some(AliasDist { inner: d }),
        Err(_) => None,
    }
}

/// Relies on rand_distr::WeightedAliasIndex::sample (as Distribution) with
/// rand::thread_rng: whatever the generator yields, the sample is an index
/// below the weight count.  Which index comes back is random, so nothing
/// more is promised.
#[verifier::external_body]
pub(crate) fn alias_sample(d: &AliasDist) -> (i: usize)
    requires
        alias_weights(*d).len() >= 1,
    ensures
        i < alias_weights(*d).len(),
{
    rand_distr::Distribution::sample(&d.inner, &mut rand::thread_rng())
}

/// Relies on fastrand::u32 over its full range.  The result is a fresh
/// pseudo-random draw, so nothing is promised of it.
#[verifier::external_body]
pub(crate) fn random_u32() -> u32 {
    fastrand::u32(..)
}

} // verus!
