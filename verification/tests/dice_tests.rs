use ternary_dice::{Dice, DiceRoller, DiceSet, Prng, Trit};

#[test]
fn dice_roll_produces_trit() {
    let mut dice = Dice::new(42);
    for _ in 0..100 {
        let t = dice.roll();
        assert!(t == Trit::Neg || t == Trit::Zero || t == Trit::Pos);
    }
}

#[test]
fn dice_weighted_bias() {
    let mut dice = Dice::with_weights(42, [0, 0, 100]);
    for _ in 0..50 {
        assert_eq!(dice.roll(), Trit::Pos);
    }
}

#[test]
fn dice_weighted_neg_only() {
    let mut dice = Dice::with_weights(42, [100, 0, 0]);
    for _ in 0..50 {
        assert_eq!(dice.roll(), Trit::Neg);
    }
}

#[test]
fn dice_zero_weights() {
    let mut dice = Dice::with_weights(42, [0, 0, 0]);
    assert_eq!(dice.roll(), Trit::Zero);
}

#[test]
fn dice_roll_n() {
    let mut dice = Dice::new(42);
    let rolls = dice.roll_n(10);
    assert_eq!(rolls.len(), 10);
}

#[test]
fn dice_bias_toward() {
    let mut dice = Dice::new(42);
    dice.bias_toward(Trit::Pos);
    assert_eq!(dice.weights, [1, 1, 3]);
}

#[test]
fn dice_extreme_weights_dont_panic() {
    let mut dice = Dice::with_weights(42, [u32::MAX, u32::MAX, 1]);
    for _ in 0..32 {
        let _ = dice.roll();
    }
}

#[test]
fn dice_max_weight_single_outcome_dominates() {
    let mut dice = Dice::with_weights(42, [u32::MAX, 0, 0]);
    for _ in 0..50 {
        assert_eq!(dice.roll(), Trit::Neg);
    }
}

#[test]
fn dice_set_add_and_roll() {
    let mut set = DiceSet::new();
    set.add(Dice::new(1));
    set.add(Dice::new(2));
    assert_eq!(set.len(), 2);
    let rolls = set.roll_all();
    assert_eq!(rolls.len(), 2);
}

#[test]
fn dice_set_roll_one() {
    let mut set = DiceSet::new();
    set.add(Dice::new(1));
    set.add(Dice::new(2));
    let result = set.roll_one(0);
    assert!(result.is_some());
    let missing = set.roll_one(99);
    assert!(missing.is_none());
}

#[test]
fn dice_set_empty_handling() {
    let mut set = DiceSet::new();
    assert!(set.is_empty());
    assert_eq!(set.len(), 0);
    assert_eq!(set.roll_all(), Vec::<Trit>::new());
    assert!(set.roll_one(0).is_none());
}

#[test]
fn dice_set_default_matches_new() {
    let set = DiceSet::default();
    assert!(set.is_empty());
}

#[test]
fn dice_roller_generate() {
    let roller = DiceRoller::new(3, 5);
    let results = roller.generate(42);
    assert_eq!(results.len(), 5);
    for combo in &results {
        assert_eq!(combo.len(), 3);
    }
}

#[test]
fn dice_roller_roll_once() {
    let roller = DiceRoller::new(4, 1);
    let combo = roller.roll_once(42);
    assert_eq!(combo.len(), 4);
}

#[test]
fn dice_roller_zero_dice_yields_empty_combos() {
    let roller = DiceRoller::new(0, 3);
    let results = roller.generate(42);
    assert_eq!(results.len(), 3);
    for combo in &results {
        assert!(combo.is_empty());
    }
}

#[test]
fn dice_roller_zero_rolls_yields_empty_vec() {
    let roller = DiceRoller::new(3, 0);
    let results = roller.generate(42);
    assert!(results.is_empty());
}

use Trit::{Neg as N, Pos as P, Zero as Z};

#[test]
fn dice_uniform_rolls_exact() {
    // Uniform weights: the draw is the next output modulo 3.
    let mut dice = Dice::new(42);
    assert_eq!(dice.roll_n(10), vec![N, Z, N, P, N, N, N, Z, Z, P]);
}

#[test]
fn dice_roll_n_matches_repeated_roll() {
    let mut a = Dice::with_weights(5, [2, 7, 1]);
    let mut b = a.clone();
    let batch = a.roll_n(25);
    let single: Vec<Trit> = (0..25).map(|_| b.roll()).collect();
    assert_eq!(batch, single);
    // Both dice end in the same state.
    assert_eq!(a.roll(), b.roll());
}

#[test]
fn dice_zero_weights_still_advance_generator() {
    let mut zero = Dice::with_weights(9, [0, 0, 0]);
    for _ in 0..5 {
        assert_eq!(zero.roll(), Trit::Zero);
    }
    // Each zero-weight roll drew once: switching to uniform weights continues
    // the stream of a fresh dice five rolls on.
    zero.weights = [1, 1, 1];
    let mut fresh = Dice::new(9);
    fresh.roll_n(5);
    for _ in 0..10 {
        assert_eq!(zero.roll(), fresh.roll());
    }
}

#[test]
fn dice_roll_n_advances_generator_by_count() {
    for w in [[0u32, 0, 0], [1, 1, 1], [u32::MAX, u32::MAX, 1]] {
        let mut dice = Dice::with_weights(77, w);
        dice.roll_n(12);
        let mut p = Prng::new(77);
        for _ in 0..12 {
            p.next_u32();
        }
        // Read the dice's state through one uniform roll.
        dice.weights = [1, 1, 1];
        let expected = match p.next_u32() % 3 {
            0 => Trit::Neg,
            1 => Trit::Zero,
            _ => Trit::Pos,
        };
        assert_eq!(dice.roll(), expected);
    }
}

#[test]
fn dice_outcomes_have_nonzero_weight() {
    for w in [[0u32, 5, 0], [3, 0, 4], [0, 0, 1], [u32::MAX, u32::MAX, 1]] {
        let mut dice = Dice::with_weights(1234, w);
        for _ in 0..200 {
            match dice.roll() {
                Trit::Neg => assert!(w[0] > 0),
                Trit::Zero => assert!(w[1] > 0),
                Trit::Pos => assert!(w[2] > 0),
            }
        }
    }
}

#[test]
fn dice_bias_toward_each_target() {
    let mut dice = Dice::with_weights(3, [9, 9, 9]);
    dice.bias_toward(Trit::Neg);
    assert_eq!(dice.weights, [3, 1, 1]);
    dice.bias_toward(Trit::Zero);
    assert_eq!(dice.weights, [1, 3, 1]);
}

#[test]
fn dice_set_roll_all_matches_individual_dice() {
    let mut set = DiceSet::new();
    let mut singles = Vec::new();
    for seed in [4u32, 8, 15, 16] {
        assert_eq!(set.add(Dice::new(seed)), singles.len());
        singles.push(Dice::new(seed));
    }
    for _ in 0..3 {
        let all = set.roll_all();
        let expected: Vec<Trit> = singles.iter_mut().map(|d| d.roll()).collect();
        assert_eq!(all, expected);
    }
}

#[test]
fn dice_set_roll_one_leaves_others_untouched() {
    let mut set = DiceSet::new();
    set.add(Dice::new(11));
    set.add(Dice::new(22));
    let mut first = Dice::new(11);
    let mut second = Dice::new(22);
    assert_eq!(set.roll_one(1), Some(second.roll()));
    assert_eq!(set.roll_one(1), Some(second.roll()));
    assert_eq!(set.roll_all(), vec![first.roll(), second.roll()]);
}

#[test]
fn dice_roller_generate_exact() {
    let roller = DiceRoller::new(3, 5);
    let results = roller.generate(42);
    assert_eq!(
        results,
        vec![
            vec![N, Z, P],
            vec![N, P, P],
            vec![N, N, N],
            vec![N, Z, N],
            vec![N, P, N],
        ]
    );
    assert_eq!(DiceRoller::new(4, 1).roll_once(42), vec![N, Z, P, P]);
}

#[test]
fn dice_roller_roll_once_is_first_round() {
    for seed in [0u32, 1, 42, u32::MAX] {
        let roller = DiceRoller::new(6, 3);
        assert_eq!(roller.roll_once(seed), roller.generate(seed)[0]);
        // Round k uses seed + k.
        assert_eq!(roller.generate(seed)[2], roller.roll_once(seed.wrapping_add(2)));
    }
}

#[test]
fn dice_roller_die_seeds() {
    // Die i of a round is a fresh uniform dice seeded with base + i * 7919.
    let combo = DiceRoller::new(3, 1).roll_once(100);
    for i in 0..3u32 {
        let mut d = Dice::new(100u32.wrapping_add(i * 7919));
        assert_eq!(combo[i as usize], d.roll());
    }
}
