use vstd::prelude::*;

use crate::dice::total_weight;

verus! {

/// The largest weight a rebalance installs: three times the scale of 1000.
pub const MAX_REBALANCED_WEIGHT: u32 = 3000;

/// The weight a rebalance installs for outcome `i`, given the number of
/// recorded rolls and the scaled per-outcome weights `[neg, zero, pos]`
/// already truncated to integers: with no recorded rolls every weight is
/// `1`; otherwise each scaled weight is clamped to `[1, 3000]`.
pub open spec fn spec_rebalanced(total: usize, scaled: [u32; 3], i: int) -> u32 {
    if total == 0 {
        1
    } else if scaled[i] < 1 {
        1
    } else if scaled[i] > MAX_REBALANCED_WEIGHT {
        MAX_REBALANCED_WEIGHT
    } else {
        scaled[i]
    }
}

/// Finishes a rebalance: `[1, 1, 1]` when no rolls were recorded, else the
/// scaled weights each clamped to `[1, 3000]`, so that no outcome is ever
/// given weight zero and none can dominate the next roll.
pub fn rebalanced_weights(total: usize, scaled: [u32; 3]) -> (w: [u32; 3])
    ensures
        forall|i: int| 0 <= i < 3 ==> #[trigger] w[i] == spec_rebalanced(total, scaled, i),
        forall|i: int| 0 <= i < 3 ==> 1 <= #[trigger] w[i] <= MAX_REBALANCED_WEIGHT,
        total == 0 ==> w@ == seq![1u32, 1, 1],
        total > 0 ==> forall|i: int|
            0 <= i < 3 ==> #[trigger] w[i] == if scaled[i] < 1 {
                1
            } else if scaled[i] > 3000 {
                3000
            } else {
                scaled[i]
            },
        total > 0 ==> forall|i: int| 0 <= i < 3 && 1 <= scaled[i] <= 3000 ==> #[trigger] w[i] == scaled[i],
{
    proof {
        assert forall|i: int| 0 <= i < 3 implies #[trigger] spec_rebalanced(total, scaled, i) == if total == 0 {
            1
        } else if scaled[i] < 1 {
            1
        } else if scaled[i] > 3000 {
            3000
        } else {
            scaled[i]
        } by {
            lemma_rebalanced_clamps(total, scaled, i);
        }
    }
    if total == 0 {
        let w: [u32; 3] = [1, 1, 1];
        assert(w@ == seq![1u32, 1, 1]);
        return w;
    }
    let mut w: [u32; 3] = [1, 1, 1];
    let mut i: usize = 0;
    while i < 3
        invariant
            total != 0,
            i <= 3,
            forall|j: int| 0 <= j < i ==> #[trigger] w[j] == spec_rebalanced(total, scaled, j),
        decreases 3 - i,
    {
        let v = if scaled[i] < 1 {
            1
        } else if scaled[i] > MAX_REBALANCED_WEIGHT {
            MAX_REBALANCED_WEIGHT
        } else {
            scaled[i]
        };
        w.set(i, v);
        i = i + 1;
    }
    w
}

/// Weights that are all at least `1` (as rebalanced weights are) sum to a
/// positive total, so a dice carrying them
/// always draws from its generator.
pub proof fn lemma_rebalanced_total_positive(w: [u32; 3])
    requires
        forall|i: int| 0 <= i < 3 ==> 1 <= #[trigger] w[i] <= MAX_REBALANCED_WEIGHT,
    ensures
        total_weight(w) >= 3,
{
    assert(w[0] >= 1 && w[1] >= 1 && w[2] >= 1);
}

/// With recorded rolls, each rebalanced weight is the scaled weight clamped
/// to `[1, 3000]`, so weights already in range are kept as they are; only
/// with no recorded rolls is every weight `1`.
pub proof fn lemma_rebalanced_clamps(total: usize, scaled: [u32; 3], i: int)
    requires
        0 <= i < 3,
    ensures
        total == 0 ==> spec_rebalanced(total, scaled, i) == 1,
        total > 0 && scaled[i] < 1 ==> spec_rebalanced(total, scaled, i) == 1,
        total > 0 && scaled[i] > 3000 ==> spec_rebalanced(total, scaled, i) == 3000,
        total > 0 && 1 <= scaled[i] <= 3000 ==> spec_rebalanced(total, scaled, i) == scaled[i],
{
}

} // verus!
