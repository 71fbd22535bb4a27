# ternary_dice

Deterministic, seed-reproducible dice over the balanced-ternary domain
{-1, 0, +1}, verified with Verus.

- `src/trit.rs`: trits, their values, sums and counts of sequences.
- `src/prng.rs`: the xorshift32 generator; its state is never zero, and a
  step is injective.
- `src/dice.rs`: weighted dice; a roll's outcome as a function of weights and
  generator state.
- `src/dice_set.rs`, `src/roller.rs`: sets of dice and seeded roll
  combinations.
- `src/statistics.rs`: tallies of rolls and their mode and signed sum.
- `src/rebalance.rs`: the integer side of weight rebalancing.
- `src/fates.rs`: the table from roll sums to narrative outcomes.
- `app/lib.rs`: frequencies, balance checks and the inverse-probability
  rebalancing, which compute in floating point.
