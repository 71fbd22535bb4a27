use vstd::prelude::*;

use crate::dice::{fresh_roll, lemma_uniform_roll, Dice};
use crate::dice_set::DiceSet;
use crate::prng::{seed_state, xorshift32};
use crate::trit::Trit;

verus! {

/// The seed of round `k`: the root seed plus `k`, wrapping at 2^32.
pub open spec fn round_seed(seed: u32, k: int) -> u32 {
    ((seed + k) % 0x1_0000_0000) as u32
}

/// The seed of die `i` in a round whose seed is `base`: `base + i * 7919`,
/// wrapping at 2^32.
pub open spec fn die_seed(base: u32, i: int) -> u32 {
    ((base + i * 7919) % 0x1_0000_0000) as u32
}

/// One combination: `n` fresh uniform dice seeded from `base`, each rolled
/// once.
pub open spec fn combination(base: u32, n: nat) -> Seq<Trit> {
    Seq::new(n, |i: int| fresh_roll(die_seed(base, i)))
}

/// Every die index `i` below `n` has a seed offset `i * 7919` that fits in
/// a `u32`.
pub open spec fn dice_count_fits(n: usize) -> bool {
    n == 0 || (n - 1) * 7919 <= u32::MAX
}

/// Generates combinations of rolls: `rolls_per_die` rounds of `dice_count`
/// dice each, all seeded from one root seed.
#[derive(Clone, Debug)]
pub struct DiceRoller {
    /// Number of dice rolled in each round.
    pub dice_count: usize,
    /// Number of rounds (combinations) produced by `generate`.
    pub rolls_per_die: usize,
}

impl DiceRoller {
    /// Creates a roller of `rolls_per_die` rounds of `dice_count` dice.
    pub fn new(dice_count: usize, rolls_per_die: usize) -> (r: DiceRoller)
        ensures
            r.dice_count == dice_count,
            r.rolls_per_die == rolls_per_die,
    {
        DiceRoller { dice_count, rolls_per_die }
    }

    /// Builds the set of `dice_count` fresh dice seeded from `base` and
    /// rolls each once.
    fn combination_from(&self, base: u32) -> (v: Vec<Trit>)
        requires
            dice_count_fits(self.dice_count),
        ensures
            v@ == combination(base, self.dice_count as nat),
    {
        let mut set = DiceSet::new();
        let mut i: usize = 0;
        while i < self.dice_count
            invariant
                dice_count_fits(self.dice_count),
                i <= self.dice_count,
                set@.len() == i,
                forall|j: int|
                    0 <= j < i ==> {
                        &&& (#[trigger] set@[j]).weight_array()@ == seq![1u32, 1, 1]
                        &&& set@[j].state() == seed_state(die_seed(base, j))
                    },
            decreases self.dice_count - i,
        {
            assert(i * 7919 <= u32::MAX) by (nonlinear_arith)
                requires
                    i < self.dice_count,
                    dice_count_fits(self.dice_count),
            ;
            let offset: u32 = (i as u32) * 7919;
            let s = base.wrapping_add(offset);
            assert(s == die_seed(base, i as int));
            let d = Dice::new(s);
            set.add(d);
            i = i + 1;
        }
        let v = set.roll_all();
        assert forall|j: int| 0 <= j < v@.len() implies #[trigger] v@[j] == combination(
            base,
            self.dice_count as nat,
        )[j] by {
            lemma_uniform_roll(set@[j].weight_array(), die_seed(base, j));
        }
        assert(v@ == combination(base, self.dice_count as nat));
        v
    }

    /// Generates `rolls_per_die` combinations; round `k` uses the root seed
    /// plus `k`, and die `i` within a round adds `i * 7919` to it.
    pub fn generate(&self, seed: u32) -> (r: Vec<Vec<Trit>>)
        requires
            dice_count_fits(self.dice_count),
        ensures
            r@.len() == self.rolls_per_die,
            forall|k: int|
                0 <= k < self.rolls_per_die ==> (#[trigger] r@[k])@ == combination(
                    round_seed(seed, k),
                    self.dice_count as nat,
                ),
            forall|k: int, i: int|
                #![trigger r@[k]@[i]]
                0 <= k < self.rolls_per_die && 0 <= i < self.dice_count ==> {
                    let sd = ((seed + k + i * 7919) % 0x1_0000_0000) as u32;
                    let d = xorshift32(if sd == 0 { 1 } else { sd }) % 3;
                    &&& r@[k]@.len() == self.dice_count
                    &&& r@[k]@[i] == if d == 0 {
                        Trit::Neg
                    } else if d == 1 {
                        Trit::Zero
                    } else {
                        Trit::Pos
                    }
                },
    {
        let mut results: Vec<Vec<Trit>> = Vec::new();
        let mut base_seed = seed;
        let mut k: usize = 0;
        while k < self.rolls_per_die
            invariant
                dice_count_fits(self.dice_count),
                k <= self.rolls_per_die,
                results@.len() == k,
                base_seed == round_seed(seed, k as int),
                forall|j: int|
                    0 <= j < k ==> (#[trigger] results@[j])@ == combination(
                        round_seed(seed, j),
                        self.dice_count as nat,
                    ),
            decreases self.rolls_per_die - k,
        {
            let combo = self.combination_from(base_seed);
            results.push(combo);
            proof {
                lemma_next_round_seed(seed, k as int);
            }
            base_seed = base_seed.wrapping_add(1);
            k = k + 1;
        }
        proof {
            assert forall|kk: int, i: int|
                #![trigger results@[kk]@[i]]
                0 <= kk < self.rolls_per_die && 0 <= i < self.dice_count implies {
                let sd = ((seed + kk + i * 7919) % 0x1_0000_0000) as u32;
                let d = xorshift32(if sd == 0 { 1 } else { sd }) % 3;
                &&& results@[kk]@.len() == self.dice_count
                &&& results@[kk]@[i] == if d == 0 {
                    Trit::Neg
                } else if d == 1 {
                    Trit::Zero
                } else {
                    Trit::Pos
                }
            } by {
                assert(results@[kk]@ == combination(round_seed(seed, kk), self.dice_count as nat));
                lemma_combination_entry(round_seed(seed, kk), self.dice_count as nat, i);
                lemma_round_die_seed(seed, kk, i);
            }
        }
        results
    }

    /// Generates a single combination: all `dice_count` dice seeded from
    /// `seed`, each rolled once.
    pub fn roll_once(&self, seed: u32) -> (v: Vec<Trit>)
        requires
            dice_count_fits(self.dice_count),
        ensures
            v@ == combination(seed, self.dice_count as nat),
            v@.len() == self.dice_count,
            forall|i: int|
                #![trigger v@[i]]
                0 <= i < self.dice_count ==> {
                    let sd = ((seed + i * 7919) % 0x1_0000_0000) as u32;
                    let d = xorshift32(if sd == 0 { 1 } else { sd }) % 3;
                    v@[i] == if d == 0 {
                        Trit::Neg
                    } else if d == 1 {
                        Trit::Zero
                    } else {
                        Trit::Pos
                    }
                },
    {
        let v = self.combination_from(seed);
        proof {
            assert forall|i: int| #![trigger v@[i]] 0 <= i < self.dice_count implies {
                let sd = ((seed + i * 7919) % 0x1_0000_0000) as u32;
                let d = xorshift32(if sd == 0 { 1 } else { sd }) % 3;
                v@[i] == if d == 0 {
                    Trit::Neg
                } else if d == 1 {
                    Trit::Zero
                } else {
                    Trit::Pos
                }
            } by {
                lemma_combination_entry(seed, self.dice_count as nat, i);
            }
        }
        v
    }
}

/// The seed of round `k + 1` is the seed of round `k` plus one, wrapping.
pub proof fn lemma_next_round_seed(seed: u32, k: int)
    requires
        k >= 0,
    ensures
        round_seed(seed, k + 1) == round_seed(seed, k).wrapping_add(1),
{
    let m: int = 0x1_0000_0000;
    let a = seed + k;
    assert((a + 1) % m == (a % m + 1) % m) by {
        vstd::arithmetic::div_mod::lemma_add_mod_noop(a, 1, m);
    }
}

/// `roll_once(seed)` is the first combination that `generate(seed)` produces.
pub proof fn lemma_roll_once_is_first_round(seed: u32, n: nat)
    ensures
        combination(round_seed(seed, 0), n) == combination(seed, n),
{
}

/// Entry `i` of a combination from base seed `b` is the first roll of a
/// fresh uniform dice seeded with `b + i * 7919` (wrapping at 2^32): the
/// first generator output, from that seed (`1` in place of `0`), modulo 3
/// picks `Neg`, `Zero` or `Pos`.
pub proof fn lemma_combination_entry(b: u32, n: nat, i: int)
    requires
        0 <= i < n,
    ensures
        combination(b, n).len() == n,
        ({
            let sd = ((b + i * 7919) % 0x1_0000_0000) as u32;
            let d = xorshift32(if sd == 0 { 1 } else { sd }) % 3;
            combination(b, n)[i] == if d == 0 {
                Trit::Neg
            } else if d == 1 {
                Trit::Zero
            } else {
                Trit::Pos
            }
        }),
{
}

/// Die `i` of round `k` is seeded with `seed + k + i * 7919`, wrapping at
/// 2^32.
pub proof fn lemma_round_die_seed(seed: u32, k: int, i: int)
    requires
        k >= 0,
        i >= 0,
    ensures
        ((round_seed(seed, k) + i * 7919) % 0x1_0000_0000) as u32 == ((seed + k + i * 7919)
            % 0x1_0000_0000) as u32,
{
    let m: int = 0x1_0000_0000;
    assert(i * 7919 >= 0) by (nonlinear_arith)
        requires
            i >= 0,
    ;
    vstd::arithmetic::div_mod::lemma_add_mod_noop(seed + k, i * 7919, m);
    vstd::arithmetic::div_mod::lemma_mod_twice(i * 7919, m);
    vstd::arithmetic::div_mod::lemma_add_mod_noop((seed + k) % m, i * 7919, m);
}

/// Within a round, distinct dice get distinct seeds: for indices below a
/// dice count that fits, `base + i * 7919` never wraps onto another die's
/// seed.
pub proof fn lemma_die_seeds_distinct(base: u32, i: int, j: int, n: usize)
    requires
        dice_count_fits(n),
        0 <= i < j < n,
    ensures
        die_seed(base, i) != die_seed(base, j),
        ((base + i * 7919) % 0x1_0000_0000) as u32 != ((base + j * 7919) % 0x1_0000_0000) as u32,
{
    let m: int = 0x1_0000_0000;
    let top: int = n - 1;
    assert(j * 7919 <= top * 7919) by (nonlinear_arith)
        requires
            j <= top,
    ;
    assert(j * 7919 - i * 7919 == (j - i) * 7919) by (nonlinear_arith);
    assert((j - i) * 7919 >= 7919) by (nonlinear_arith)
        requires
            j - i >= 1,
    ;
    assert(i * 7919 >= 0) by (nonlinear_arith)
        requires
            i >= 0,
    ;
    let x = base + i * 7919;
    let y = base + j * 7919;
    assert(x % m != y % m) by {
        vstd::arithmetic::div_mod::lemma_fundamental_div_mod(x, m);
        vstd::arithmetic::div_mod::lemma_fundamental_div_mod(y, m);
        if x % m == y % m {
            assert((y - x) == m * (y / m) - m * (x / m));
            vstd::arithmetic::mul::lemma_mul_is_distributive_sub(m, y / m, x / m);
            assert(y - x == m * (y / m - x / m));
            if y / m - x / m >= 1 {
                vstd::arithmetic::mul::lemma_mul_inequality(1, y / m - x / m, m);
                vstd::arithmetic::mul::lemma_mul_is_commutative(m, y / m - x / m);
            } else {
                vstd::arithmetic::mul::lemma_mul_inequality(y / m - x / m, 0, m);
                vstd::arithmetic::mul::lemma_mul_is_commutative(m, y / m - x / m);
            }
        }
    }
}

} // verus!
