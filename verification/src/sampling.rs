//! Weighted random choice of an index, through `rand_distr`'s alias method.

use rand::rngs::OsRng;
use rand_distr::{Distribution, WeightedAliasIndex};
use vstd::prelude::*;

verus! {

/// Holds a `rand_distr::WeightedAliasIndex<u32>`, which Verus cannot declare
/// (its parameter is bound by a trait of `rand_distr`). Verus sees only the
/// weights it was made with, through `alias_sampler_weights`.
#[verifier::external_body]
pub struct AliasSampler {
    dist: WeightedAliasIndex<u32>,
}

/// The weights that an `AliasSampler` was made with, in order.
pub uninterp spec fn alias_sampler_weights(sampler: AliasSampler) -> Seq<u32>;

/// The sum of a sequence of weights.
pub open spec fn weight_sum(weights: Seq<u32>) -> int
    decreases weights.len(),
{
    if weights.len() == 0 {
        0
    } else {
        weight_sum(weights.drop_last()) + weights.last()
    }
}

/// The weights that `WeightedAliasIndex::<u32>::new` accepts: at least one and
/// at most `u32::MAX` of them, none above `u32::MAX` divided by their number,
/// and not all zero.
pub open spec fn valid_alias_weights(weights: Seq<u32>) -> bool {
    &&& 0 < weights.len() <= u32::MAX
    &&& forall|i: int| 0 <= i < weights.len() ==> weights[i] <= (u32::MAX as int) / (weights.len() as int)
    &&& weight_sum(weights) != 0
}

/// The sum of weights is never negative, and it is zero exactly when every
/// weight is.
pub proof fn lemma_weight_sum_zero(weights: Seq<u32>)
    ensures
        weight_sum(weights) >= 0,
        weight_sum(weights) == 0 <==> forall|i: int| 0 <= i < weights.len() ==> weights[i] == 0,
    decreases weights.len(),
{
    if weights.len() > 0 {
        let front = weights.drop_last();
        lemma_weight_sum_zero(front);
        if weight_sum(weights) == 0 {
            assert forall|i: int| 0 <= i < weights.len() implies weights[i] == 0 by {
                if i < front.len() {
                    assert(weights[i] == front[i]);
                }
            }
        }
        if forall|i: int| 0 <= i < weights.len() ==> weights[i] == 0 {
            assert forall|i: int| 0 <= i < front.len() implies front[i] == 0 by {
                assert(front[i] == weights[i]);
            }
        }
    }
}

/// Whether `WeightedAliasIndex::<u32>::new` accepts these weights.
pub fn alias_weights_are_valid(weights: &Vec<u32>) -> (r: bool)
    ensures
        r == valid_alias_weights(weights@),
{
    let n = weights.len();
    if n == 0 || n > u32::MAX as usize {
        return false;
    }
    let max_weight = u32::MAX / (n as u32);
    let mut any_positive = false;
    let mut i: usize = 0;
    while i < n
        invariant
            n == weights@.len(),
            0 < n <= u32::MAX,
            max_weight == (u32::MAX as int) / (n as int),
            i <= n,
            forall|j: int| 0 <= j < i ==> weights@[j] <= max_weight,
            any_positive <==> exists|j: int| 0 <= j < i && weights@[j] > 0,
        decreases n - i,
    {
        if weights[i] > max_weight {
            return false;
        }
        if weights[i] > 0 {
            any_positive = true;
        }
        i = i + 1;
    }
    proof {
        lemma_weight_sum_zero(weights@);
        if !any_positive {
            assert forall|j: int| 0 <= j < weights@.len() implies weights@[j] == 0 by {
                if weights@[j] > 0 {
                    assert(exists|k: int| 0 <= k < i && weights@[k] > 0);
                }
            }
        } else {
            let k = choose|k: int| 0 <= k < i && weights@[k] > 0;
            assert(weights@[k] != 0);
        }
    }
    any_positive
}

impl AliasSampler {
    /// Calls `WeightedAliasIndex::<u32>::new`. Claims what its source shows:
    /// it succeeds exactly on `valid_alias_weights`, and the distribution is
    /// then made with these weights. Which error it gives otherwise is dropped.
    #[verifier::external_body]
    pub(crate) fn new(weights: Vec<u32>) -> (r: Option<AliasSampler>)
        ensures
            r is Some <==> valid_alias_weights(weights@),
            r matches Some(s) ==> alias_sampler_weights(s) == weights@,
    {
        WeightedAliasIndex::new(weights).ok().map(|dist| AliasSampler { dist })
    }

    /// Calls `Distribution::sample` of `WeightedAliasIndex<u32>` with the
    /// operating system's generator `OsRng`. The index is random; what holds
    /// of every draw, as the alias construction in the source shows, is that
    /// it is the position of a weight, and of a weight above zero. That an
    /// index is drawn in proportion to its weight is left unsaid.
    #[verifier::external_body]
    pub(crate) fn sample(&self) -> (i: usize)
        ensures
            i < alias_sampler_weights(*self).len(),
            alias_sampler_weights(*self)[i as int] > 0,
    {
        self.dist.sample(&mut OsRng)
    }
}

} // verus!
