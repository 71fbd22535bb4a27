use ternary_dice::{rebalanced_weights, Dice, Trit};

#[test]
fn rebalanced_weights_empty_stats_are_unit() {
    assert_eq!(rebalanced_weights(0, [0, 500, 9000]), [1, 1, 1]);
}

#[test]
fn rebalanced_weights_raise_zero_to_one() {
    assert_eq!(rebalanced_weights(7, [1750, 250, 350]), [1750, 250, 350]);
    assert_eq!(rebalanced_weights(100, [1000, 0, 0]), [1000, 1, 1]);
    assert_eq!(rebalanced_weights(1, [0, 0, 0]), [1, 1, 1]);
}

#[test]
fn rebalanced_dice_never_has_zero_total() {
    let w = rebalanced_weights(10, [0, 0, 0]);
    let mut dice = Dice::with_weights(42, w);
    let mut seen = [false; 3];
    for _ in 0..300 {
        match dice.roll() {
            Trit::Neg => seen[0] = true,
            Trit::Zero => seen[1] = true,
            Trit::Pos => seen[2] = true,
        }
    }
    assert_eq!(seen, [true, true, true]);
}

#[test]
fn rebalanced_weights_capped_at_three_thousand() {
    assert_eq!(rebalanced_weights(10, [5000, 3000, u32::MAX]), [3000, 3000, 3000]);
    assert_eq!(rebalanced_weights(10, [2999, 3001, 0]), [2999, 3000, 1]);
}
