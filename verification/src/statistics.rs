use vstd::prelude::*;

use crate::trit::{count_of, lemma_sum_is_count_difference, trit_sum, Trit};

verus! {

/// Tallies of each trit value across a sequence of rolls.
#[derive(Clone, Debug)]
pub struct DiceStatistics {
    /// Number of `Neg` observations recorded so far.
    pub neg_count: usize,
    /// Number of `Zero` observations recorded so far.
    pub zero_count: usize,
    /// Number of `Pos` observations recorded so far.
    pub pos_count: usize,
    /// Total number of observations recorded so far (`neg + zero + pos`).
    pub total: usize,
}

impl DiceStatistics {
    /// The count kept for `t`.
    pub open spec fn count(self, t: Trit) -> usize {
        match t {
            Trit::Neg => self.neg_count,
            Trit::Zero => self.zero_count,
            Trit::Pos => self.pos_count,
        }
    }

    /// The total agrees with the three counts.
    pub open spec fn consistent(self) -> bool {
        self.total == self.neg_count + self.zero_count + self.pos_count
    }

    /// The statistics of the rolls `s`: each count is the number of
    /// occurrences in `s`, and the total is its length.
    pub open spec fn tallies(self, s: Seq<Trit>) -> bool {
        &&& self.neg_count == count_of(s, Trit::Neg)
        &&& self.zero_count == count_of(s, Trit::Zero)
        &&& self.pos_count == count_of(s, Trit::Pos)
        &&& self.total == s.len()
    }

    /// The largest of the three counts.
    pub open spec fn max_count(self) -> int {
        vstd::math::max(
            vstd::math::max(self.neg_count as int, self.zero_count as int),
            self.pos_count as int,
        )
    }

    /// The outcome `mode` reports: `None` when nothing has been recorded,
    /// otherwise the last of `Neg`, `Zero`, `Pos` whose count is the largest.
    pub open spec fn spec_mode(self) -> Option<Trit> {
        if self.total == 0 {
            None
        } else if self.pos_count == self.max_count() {
            Some(Trit::Pos)
        } else if self.zero_count == self.max_count() {
            Some(Trit::Zero)
        } else {
            Some(Trit::Neg)
        }
    }

    /// Creates empty statistics (all counts zero).
    pub fn new() -> (s: DiceStatistics)
        ensures
            s.neg_count == 0,
            s.zero_count == 0,
            s.pos_count == 0,
            s.total == 0,
    {
        DiceStatistics { neg_count: 0, zero_count: 0, pos_count: 0, total: 0 }
    }

    /// Tallies a whole slice of rolls.
    pub fn from_rolls(rolls: &[Trit]) -> (s: DiceStatistics)
        ensures
            s.tallies(rolls@),
            s.consistent(),
    {
        let mut stats = DiceStatistics::new();
        let mut i: usize = 0;
        while i < rolls.len()
            invariant
                i <= rolls@.len(),
                stats.tallies(rolls@.take(i as int)),
            decreases rolls@.len() - i,
        {
            proof {
                lemma_sum_is_count_difference(rolls@.take(i as int));
                assert(rolls@.take(i as int + 1) == rolls@.take(i as int).push(rolls@[i as int]));
            }
            stats.record(rolls[i]);
            i = i + 1;
        }
        proof {
            assert(rolls@.take(rolls@.len() as int) == rolls@);
            lemma_sum_is_count_difference(rolls@);
        }
        stats
    }

    /// Records a single roll, incrementing its count and the total.
    pub fn record(&mut self, trit: Trit)
        requires
            old(self).total < usize::MAX,
            old(self).count(trit) < usize::MAX,
        ensures
            final(self).total == old(self).total + 1,
            final(self).count(trit) == old(self).count(trit) + 1,
            forall|t: Trit| t != trit ==> final(self).count(t) == old(self).count(t),
            old(self).consistent() ==> final(self).consistent(),
            forall|s: Seq<Trit>| old(self).tallies(s) ==> final(self).tallies(s.push(trit)),
    {
        self.total += 1;
        match trit {
            Trit::Neg => self.neg_count += 1,
            Trit::Zero => self.zero_count += 1,
            Trit::Pos => self.pos_count += 1,
        }
        assert forall|s: Seq<Trit>| old(self).tallies(s) implies self.tallies(s.push(trit)) by {
            assert(s.push(trit).drop_last() == s);
        }
    }

    /// Returns the most frequent outcome, or `None` when nothing has been
    /// recorded. Ties go to the last of `Neg`, `Zero`, `Pos`.
    pub fn mode(&self) -> (m: Option<Trit>)
        ensures
            m == self.spec_mode(),
            m matches Some(t) ==> forall|u: Trit| self.count(u) <= self.count(t),
            m is None <==> self.total == 0,
            m == Some(Trit::Pos) ==> self.pos_count >= self.neg_count && self.pos_count
                >= self.zero_count,
            m == Some(Trit::Zero) ==> self.zero_count >= self.neg_count && self.zero_count
                > self.pos_count,
            m == Some(Trit::Neg) ==> self.neg_count > self.zero_count && self.neg_count
                > self.pos_count,
    {
        proof {
            lemma_mode_is_last_maximum(*self);
        }
        if self.total == 0 {
            return None;
        }
        if self.pos_count >= self.neg_count && self.pos_count >= self.zero_count {
            Some(Trit::Pos)
        } else if self.zero_count >= self.neg_count {
            Some(Trit::Zero)
        } else {
            Some(Trit::Neg)
        }
    }

    /// Returns the signed sum of the recorded trits: `-1` per `Neg`, `+1` per
    /// `Pos`, with each count first converted to `i32`.
    pub fn sum_i8(&self) -> (r: i32)
        requires
            (self.neg_count as i32) != i32::MIN,
            i32::MIN <= -(self.neg_count as i32) + (self.pos_count as i32) <= i32::MAX,
        ensures
            r == -(self.neg_count as i32) + (self.pos_count as i32),
            self.neg_count <= i32::MAX && self.pos_count <= i32::MAX ==> r == self.pos_count
                - self.neg_count,
    {
        -(self.neg_count as i32) + (self.pos_count as i32)
    }
}

impl Default for DiceStatistics {
    /// Empty statistics.
    fn default() -> (s: DiceStatistics)
        ensures
            s.neg_count == 0,
            s.zero_count == 0,
            s.pos_count == 0,
            s.total == 0,
    {
        DiceStatistics::new()
    }
}

/// The signed sum of the statistics of a sequence of rolls is the sum of the
/// rolls' values.
pub proof fn lemma_statistics_sum_is_trit_sum(stats: DiceStatistics, s: Seq<Trit>)
    requires
        stats.tallies(s),
    ensures
        stats.pos_count - stats.neg_count == trit_sum(s),
        stats.consistent(),
{
    lemma_sum_is_count_difference(s);
}

/// The mode is absent exactly when nothing was recorded; otherwise it is an
/// outcome of largest count, and no later outcome (in the order `Neg`,
/// `Zero`, `Pos`) has a count as large.
pub proof fn lemma_mode_is_last_maximum(st: DiceStatistics)
    ensures
        st.spec_mode() is None <==> st.total == 0,
        st.spec_mode() == Some(Trit::Pos) ==> st.pos_count >= st.neg_count && st.pos_count
            >= st.zero_count,
        st.spec_mode() == Some(Trit::Zero) ==> st.zero_count >= st.neg_count && st.zero_count
            > st.pos_count,
        st.spec_mode() == Some(Trit::Neg) ==> st.neg_count > st.zero_count && st.neg_count
            > st.pos_count,
{
}

} // verus!
