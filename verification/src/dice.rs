use vstd::prelude::*;

use crate::prng::{state_after, xorshift32, seed_state, Prng};
use crate::trit::{trit_value, Trit};

verus! {

/// `a + b`, saturating at `u32::MAX`.
pub open spec fn sat_add(a: u32, b: u32) -> u32 {
    if a + b > u32::MAX { u32::MAX } else { (a + b) as u32 }
}

/// The total weight `neg + zero + pos`, summed with saturation.
pub open spec fn total_weight(w: [u32; 3]) -> u32 {
    sat_add(sat_add(w[0], w[1]), w[2])
}

/// The outcome that a draw `r` selects: `[0, neg)` gives `Neg`,
/// `[neg, neg + zero)` gives `Zero` and the rest gives `Pos` (bounds summed
/// with saturation).
pub open spec fn bucket(w: [u32; 3], r: u32) -> Trit {
    if r < w[0] {
        Trit::Neg
    } else if r < sat_add(w[0], w[1]) {
        Trit::Zero
    } else {
        Trit::Pos
    }
}

/// The outcome of one roll with weights `w` from generator state `s`.
pub open spec fn roll_outcome(w: [u32; 3], s: u32) -> Trit {
    if total_weight(w) == 0 {
        Trit::Zero
    } else {
        bucket(w, xorshift32(s) % total_weight(w))
    }
}

/// The outcomes of `n` successive rolls. Every roll draws once from the
/// generator, so roll `k` sees the state `k` steps on.
pub open spec fn rolls_from(w: [u32; 3], s: u32, n: nat) -> Seq<Trit>
    decreases n,
{
    if n == 0 {
        Seq::empty()
    } else {
        let k = (n - 1) as nat;
        rolls_from(w, s, k).push(roll_outcome(w, state_after(s, k)))
    }
}

/// The weights that `bias_toward(target)` installs: 3 for `target`, 1 for
/// the other two outcomes.
pub open spec fn bias_weights(target: Trit) -> Seq<u32> {
    match target {
        Trit::Neg => seq![3u32, 1, 1],
        Trit::Zero => seq![1u32, 3, 1],
        Trit::Pos => seq![1u32, 1, 3],
    }
}

/// The outcome of the first roll of a freshly seeded, uniformly weighted
/// dice: the first output of the generator modulo 3 selects `Neg`, `Zero` or
/// `Pos`.
pub open spec fn fresh_roll(seed: u32) -> Trit {
    let r = xorshift32(seed_state(seed)) % 3;
    if r == 0 {
        Trit::Neg
    } else if r == 1 {
        Trit::Zero
    } else {
        Trit::Pos
    }
}

/// A ternary dice with weights `[neg, zero, pos]` and its own generator.
#[derive(Clone, Debug)]
pub struct Dice {
    /// Probability weights in the order `[neg_weight, zero_weight, pos_weight]`.
    pub weights: [u32; 3],
    prng: Prng,
}

impl Dice {
    /// The dice's weights, `[neg, zero, pos]`.
    pub closed spec fn weight_array(self) -> [u32; 3] {
        self.weights
    }

    /// The state of the dice's generator.
    pub closed spec fn state(self) -> u32 {
        self.prng@
    }

    /// Creates a uniformly weighted dice (`[1, 1, 1]`) seeded with `seed`.
    pub fn new(seed: u32) -> (d: Dice)
        ensures
            d.weight_array()@ == seq![1u32, 1, 1],
            d.state() == seed_state(seed),
            d.state() == if seed == 0 { 1 } else { seed },
    {
        Dice { weights: [1, 1, 1], prng: Prng::new(seed) }
    }

    /// Creates a dice with custom weights seeded with `seed`.
    pub fn with_weights(seed: u32, weights: [u32; 3]) -> (d: Dice)
        ensures
            d.weight_array() == weights,
            d.state() == seed_state(seed),
            d.state() == if seed == 0 { 1 } else { seed },
    {
        Dice { weights, prng: Prng::new(seed) }
    }

    /// Rolls the dice once, drawing the next output from the generator. With
    /// total weight `t` (summed with saturation) `r = next % t` selects the
    /// bucket; all-zero weights give `Zero`.
    pub fn roll(&mut self) -> (r: Trit)
        ensures
            final(self).weight_array() == old(self).weight_array(),
            final(self).state() == xorshift32(old(self).state()),
            r == roll_outcome(old(self).weight_array(), old(self).state()),
            total_weight(old(self).weight_array()) == 0 ==> r == Trit::Zero,
            r == Trit::Neg ==> old(self).weight_array()[0] > 0,
            r == Trit::Zero ==> old(self).weight_array()[1] > 0 || total_weight(old(self).weight_array()) == 0,
            r == Trit::Pos ==> old(self).weight_array()[2] > 0,
            ({
                let w = old(self).weight_array();
                let t: int = if w[0] + w[1] + w[2] > u32::MAX {
                    u32::MAX as int
                } else {
                    w[0] + w[1] + w[2]
                };
                let zero_end: int = if w[0] + w[1] > u32::MAX {
                    u32::MAX as int
                } else {
                    w[0] + w[1]
                };
                let d: int = final(self).state() as int % t;
                &&& t == 0 ==> r == Trit::Zero
                &&& t > 0 && d < w[0] ==> r == Trit::Neg
                &&& t > 0 && w[0] <= d < zero_end ==> r == Trit::Zero
                &&& t > 0 && zero_end <= d ==> r == Trit::Pos
            }),
    {
        proof {
            lemma_outcome_has_weight(self.weights, self.state());
            lemma_roll_partition(self.weights, self.state());
        }
        let total = self.weights[0].saturating_add(self.weights[1]).saturating_add(
            self.weights[2],
        );
        if total == 0 {
            self.prng.next_u32();
            return Trit::Zero;
        }
        let r = self.prng.next_range(total);
        let neg_bound = self.weights[0];
        let zero_bound = neg_bound.saturating_add(self.weights[1]);
        if r < neg_bound {
            Trit::Neg
        } else if r < zero_bound {
            Trit::Zero
        } else {
            Trit::Pos
        }
    }

    /// Rolls the dice `count` times, collecting the results in order; the
    /// generator advances by exactly `count` steps.
    pub fn roll_n(&mut self, count: usize) -> (v: Vec<Trit>)
        ensures
            final(self).weight_array() == old(self).weight_array(),
            final(self).state() == state_after(old(self).state(), count as nat),
            v@ == rolls_from(old(self).weight_array(), old(self).state(), count as nat),
            v@.len() == count,
            forall|k: int|
                0 <= k < count ==> #[trigger] v@[k] == roll_outcome(
                    old(self).weight_array(),
                    state_after(old(self).state(), k as nat),
                ),
    {
        let ghost w = self.weight_array();
        let ghost s0 = self.state();
        let mut v: Vec<Trit> = Vec::new();
        let mut i: usize = 0;
        while i < count
            invariant
                i <= count,
                self.weight_array() == w,
                self.state() == state_after(s0, i as nat),
                v@ == rolls_from(w, s0, i as nat),
            decreases count - i,
        {
            let t = self.roll();
            v.push(t);
            i = i + 1;
        }
        proof {
            lemma_rolls_from_entries(w, s0, count as nat);
        }
        v
    }

    /// Replaces the weights with a preset favouring `target`: 3 for
    /// `target`, 1 for the other two outcomes.
    pub fn bias_toward(&mut self, target: Trit)
        ensures
            final(self).weight_array()@ == bias_weights(target),
            final(self).state() == old(self).state(),
            forall|i: int|
                0 <= i < 3 ==> #[trigger] final(self).weight_array()[i] == if i == trit_value(
                    target,
                ) + 1 {
                    3u32
                } else {
                    1u32
                },
    {
        self.weights = match target {
            Trit::Neg => [3, 1, 1],
            Trit::Zero => [1, 3, 1],
            Trit::Pos => [1, 1, 3],
        };
        assert(self.weights@ == bias_weights(target));
    }
}

/// A roll only yields an outcome whose weight is nonzero; `Zero` also comes
/// when every weight is zero.
pub proof fn lemma_outcome_has_weight(w: [u32; 3], s: u32)
    ensures
        roll_outcome(w, s) == Trit::Neg ==> w[0] > 0,
        roll_outcome(w, s) == Trit::Zero ==> w[1] > 0 || total_weight(w) == 0,
        roll_outcome(w, s) == Trit::Pos ==> w[2] > 0,
{
}

/// A roll partitions the draw range by the weights: with total weight
/// `t = neg + zero + pos` (saturating at `u32::MAX`) and draw
/// `d = next % t`, where `next` is the generator's next state, the roll is
/// `Neg` for `d < neg`, `Zero` for `neg <= d < neg + zero` (saturating) and
/// `Pos` otherwise; with `t == 0` it is `Zero`.
pub proof fn lemma_roll_partition(w: [u32; 3], s: u32)
    ensures
        ({
            let t: int = if w[0] + w[1] + w[2] > u32::MAX {
                u32::MAX as int
            } else {
                w[0] + w[1] + w[2]
            };
            let zero_end: int = if w[0] + w[1] > u32::MAX {
                u32::MAX as int
            } else {
                w[0] + w[1]
            };
            let d: int = xorshift32(s) as int % t;
            &&& t == 0 ==> roll_outcome(w, s) == Trit::Zero
            &&& t > 0 && d < w[0] ==> roll_outcome(w, s) == Trit::Neg
            &&& t > 0 && w[0] <= d < zero_end ==> roll_outcome(w, s) == Trit::Zero
            &&& t > 0 && zero_end <= d ==> roll_outcome(w, s) == Trit::Pos
        }),
{
}

/// With the uniform weights `[1, 1, 1]` a roll is `fresh_roll`'s draw.
pub proof fn lemma_uniform_roll(w: [u32; 3], seed: u32)
    requires
        w@ == seq![1u32, 1, 1],
    ensures
        roll_outcome(w, seed_state(seed)) == fresh_roll(seed),
{
    assert(w[0] == 1 && w[1] == 1 && w[2] == 1) by {
        assert(w@[0] == 1 && w@[1] == 1 && w@[2] == 1);
    }
    assert(total_weight(w) == 3);
}

/// `n` rolls give `n` outcomes, and roll `k` is the outcome of the state
/// `k` generator steps on.
pub proof fn lemma_rolls_from_entries(w: [u32; 3], s: u32, n: nat)
    ensures
        rolls_from(w, s, n).len() == n,
        forall|k: int|
            0 <= k < n ==> #[trigger] rolls_from(w, s, n)[k] == roll_outcome(
                w,
                state_after(s, k as nat),
            ),
    decreases n,
{
    if n > 0 {
        lemma_rolls_from_entries(w, s, (n - 1) as nat);
    }
}

/// Rolling `a` times and then `b` times gives the same outcomes, in order,
/// as rolling `a + b` times.
pub proof fn lemma_rolls_split(w: [u32; 3], s: u32, a: nat, b: nat)
    ensures
        rolls_from(w, s, a + b) == rolls_from(w, s, a) + rolls_from(w, state_after(s, a), b),
        state_after(state_after(s, a), b) == state_after(s, a + b),
    decreases b,
{
    if b == 0 {
        assert(rolls_from(w, s, a) + rolls_from(w, state_after(s, a), 0) == rolls_from(w, s, a));
    } else {
        lemma_rolls_split(w, s, a, (b - 1) as nat);
        assert((a + b - 1) as nat == a + (b - 1) as nat);
        assert(rolls_from(w, s, a + b) == rolls_from(w, s, a) + rolls_from(
            w,
            state_after(s, a),
            b,
        ));
    }
}

} // verus!
