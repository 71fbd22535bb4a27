use vstd::prelude::*;

use crate::dice::{roll_outcome, Dice};
use crate::prng::xorshift32;
use crate::trit::Trit;

verus! {

/// `after` is `before` rolled once: same weights, generator advanced by the
/// roll.
pub open spec fn rolled_once(before: Dice, after: Dice) -> bool {
    &&& after.weight_array() == before.weight_array()
    &&& after.state() == xorshift32(before.state())
}

/// A collection of independent dice that can be rolled together.
#[derive(Clone, Debug)]
pub struct DiceSet {
    dice: Vec<Dice>,
}

impl View for DiceSet {
    type V = Seq<Dice>;

    closed spec fn view(&self) -> Seq<Dice> {
        self.dice@
    }
}

impl DiceSet {
    /// Creates an empty set.
    pub fn new() -> (s: DiceSet)
        ensures
            s@ == Seq::<Dice>::empty(),
    {
        DiceSet { dice: Vec::new() }
    }

    /// Adds a dice to the set, returning the index it was assigned.
    pub fn add(&mut self, dice: Dice) -> (idx: usize)
        ensures
            final(self)@ == old(self)@.push(dice),
            idx == old(self)@.len(),
    {
        let idx = self.dice.len();
        self.dice.push(dice);
        idx
    }

    /// Rolls every die in insertion order, returning one trit per die.
    pub fn roll_all(&mut self) -> (v: Vec<Trit>)
        ensures
            final(self)@.len() == old(self)@.len(),
            v@.len() == old(self)@.len(),
            forall|i: int|
                0 <= i < old(self)@.len() ==> rolled_once(old(self)@[i], #[trigger] final(self)@[i]),
            forall|i: int|
                0 <= i < old(self)@.len() ==> (#[trigger] final(self)@[i]).state() == xorshift32(
                    old(self)@[i].state(),
                ) && final(self)@[i].weight_array() == old(self)@[i].weight_array(),
            forall|i: int|
                0 <= i < old(self)@.len() ==> #[trigger] v@[i] == roll_outcome(
                    old(self)@[i].weight_array(),
                    old(self)@[i].state(),
                ),
    {
        let ghost before = self@;
        let n = self.dice.len();
        let mut v: Vec<Trit> = Vec::new();
        let mut i: usize = 0;
        while i < n
            invariant
                n == before.len(),
                i <= n,
                self@.len() == n,
                v@.len() == i,
                forall|j: int| 0 <= j < i ==> rolled_once(before[j], #[trigger] self@[j]),
                forall|j: int|
                    0 <= j < i ==> #[trigger] v@[j] == roll_outcome(
                        before[j].weight_array(),
                        before[j].state(),
                    ),
                forall|j: int| i <= j < n ==> #[trigger] self@[j] == before[j],
            decreases n - i,
        {
            let ghost prev = self@;
            let ghost prev_v = v@;
            assert(prev[i as int] == before[i as int]);
            let t = self.dice[i].roll();
            v.push(t);
            assert forall|j: int| 0 <= j < n && j != i implies #[trigger] self@[j] == prev[j] by {}
            assert forall|j: int| 0 <= j < i implies #[trigger] v@[j] == prev_v[j] by {}
            i = i + 1;
        }
        v
    }

    /// Rolls the die at `index`, or returns `None` if there is no such die.
    pub fn roll_one(&mut self, index: usize) -> (r: Option<Trit>)
        ensures
            final(self)@.len() == old(self)@.len(),
            r is Some <==> index < old(self)@.len(),
            r matches Some(t) ==> t == roll_outcome(
                old(self)@[index as int].weight_array(),
                old(self)@[index as int].state(),
            ),
            index < old(self)@.len() ==> rolled_once(
                old(self)@[index as int],
                final(self)@[index as int],
            ),
            index < old(self)@.len() ==> final(self)@[index as int].state() == xorshift32(
                old(self)@[index as int].state(),
            ),
            forall|j: int|
                0 <= j < old(self)@.len() && j != index ==> #[trigger] final(self)@[j] == old(
                    self,
                )@[j],
    {
        if index < self.dice.len() {
            Some(self.dice[index].roll())
        } else {
            None
        }
    }

    /// Returns the number of dice in the set.
    pub fn len(&self) -> (n: usize)
        ensures
            n == self@.len(),
    {
        self.dice.len()
    }

    /// Returns `true` if the set contains no dice.
    pub fn is_empty(&self) -> (b: bool)
        ensures
            b <==> self@.len() == 0,
    {
        self.dice.len() == 0
    }
}

impl Default for DiceSet {
    /// The empty set.
    fn default() -> (s: DiceSet)
        ensures
            s@ == Seq::<Dice>::empty(),
    {
        DiceSet::new()
    }
}

} // verus!
