use ternary_dice::{DiceStatistics, Trit};

#[test]
fn dice_statistics_from_rolls() {
    let rolls = vec![Trit::Pos, Trit::Neg, Trit::Zero, Trit::Pos];
    let stats = DiceStatistics::from_rolls(&rolls);
    assert_eq!(stats.total, 4);
    assert_eq!(stats.neg_count, 1);
    assert_eq!(stats.zero_count, 1);
    assert_eq!(stats.pos_count, 2);
}

#[test]
fn dice_statistics_mode() {
    let rolls = vec![Trit::Pos, Trit::Pos, Trit::Neg];
    let stats = DiceStatistics::from_rolls(&rolls);
    assert_eq!(stats.mode(), Some(Trit::Pos));
}

#[test]
fn dice_statistics_sum() {
    let rolls = vec![Trit::Pos, Trit::Neg, Trit::Pos, Trit::Neg];
    let stats = DiceStatistics::from_rolls(&rolls);
    assert_eq!(stats.sum_i8(), 0);
}

#[test]
fn dice_statistics_mode_tie_returns_pos_last() {
    let stats = DiceStatistics::from_rolls(&[Trit::Pos, Trit::Neg]);
    assert_eq!(stats.mode(), Some(Trit::Pos));
}

#[test]
fn dice_statistics_sum_extremes() {
    let all_pos = DiceStatistics::from_rolls(&[Trit::Pos; 5]);
    assert_eq!(all_pos.sum_i8(), 5);
    let all_neg = DiceStatistics::from_rolls(&[Trit::Neg; 5]);
    assert_eq!(all_neg.sum_i8(), -5);
}

#[test]
fn dice_statistics_default_matches_new() {
    let stats = DiceStatistics::default();
    assert_eq!(stats.total, 0);
}

#[test]
fn dice_statistics_empty_mode_is_none() {
    let stats = DiceStatistics::new();
    assert_eq!(stats.total, 0);
    assert_eq!(stats.mode(), None);
    assert_eq!(stats.sum_i8(), 0);
}

#[test]
fn dice_statistics_record_increments() {
    let mut stats = DiceStatistics::new();
    stats.record(Trit::Zero);
    stats.record(Trit::Zero);
    stats.record(Trit::Neg);
    assert_eq!(
        (stats.neg_count, stats.zero_count, stats.pos_count, stats.total),
        (1, 2, 0, 3)
    );
    assert_eq!(stats.mode(), Some(Trit::Zero));
}

#[test]
fn dice_statistics_mode_ties() {
    // Zero and Neg tie: Zero is later.
    let stats = DiceStatistics::from_rolls(&[Trit::Neg, Trit::Zero]);
    assert_eq!(stats.mode(), Some(Trit::Zero));
    // All three tie: Pos wins.
    let stats = DiceStatistics::from_rolls(&[Trit::Neg, Trit::Zero, Trit::Pos]);
    assert_eq!(stats.mode(), Some(Trit::Pos));
    // Strict maximum on Neg.
    let stats = DiceStatistics::from_rolls(&[Trit::Neg, Trit::Neg, Trit::Zero, Trit::Pos]);
    assert_eq!(stats.mode(), Some(Trit::Neg));
}

#[test]
fn dice_statistics_sum_matches_trit_sum() {
    let rolls = [Trit::Pos, Trit::Zero, Trit::Neg, Trit::Pos, Trit::Pos, Trit::Zero];
    let stats = DiceStatistics::from_rolls(&rolls);
    let direct: i32 = rolls.iter().map(|t| t.value() as i32).sum();
    assert_eq!(stats.sum_i8(), direct);
    assert_eq!(stats.sum_i8(), 2);
    assert_eq!(stats.total, stats.neg_count + stats.zero_count + stats.pos_count);
}
