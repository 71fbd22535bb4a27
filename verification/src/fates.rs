use vstd::prelude::*;

use crate::trit::{lemma_trit_sum_bounds, trit_sum, Trit};

verus! {

/// Coarse outcome severity, from worst to best.
#[derive(Clone, Copy, Debug, PartialEq)]
pub enum Severity {
    /// Worst outcome (sum -3 on the default table).
    CriticalFail,
    /// Unfavourable outcome (sums -2 or -1).
    Fail,
    /// Neither favourable nor unfavourable (sum 0).
    Neutral,
    /// Favourable outcome (sums +1 or +2).
    Success,
    /// Best outcome (sum +3).
    CriticalSuccess,
}

/// One row of a fates table: the roll sum that triggers it, the narrative
/// outcome and a severity.
#[derive(Clone, Debug, PartialEq)]
pub struct FatesEntry {
    /// The integer sum of trit values that this entry matches.
    pub roll_value: i8,
    /// Human-readable narrative description of the outcome.
    pub outcome: String,
    /// Coarse severity bucket.
    pub severity: Severity,
}

/// The first entry of `s` whose roll value is `v`, if any.
pub open spec fn lookup_in(s: Seq<FatesEntry>, v: i8) -> Option<FatesEntry>
    decreases s.len(),
{
    if s.len() == 0 {
        None
    } else if s[0].roll_value == v {
        Some(s[0])
    } else {
        lookup_in(s.drop_first(), v)
    }
}

/// The severity the default table gives the sum `v` (for `-3 <= v <= 3`).
pub open spec fn default_severity(v: int) -> Severity {
    if v <= -3 {
        Severity::CriticalFail
    } else if v < 0 {
        Severity::Fail
    } else if v == 0 {
        Severity::Neutral
    } else if v < 3 {
        Severity::Success
    } else {
        Severity::CriticalSuccess
    }
}

/// The narrative the default table gives the sum `v` (for `-3 <= v <= 3`).
pub open spec fn default_outcome(v: int) -> Seq<char> {
    if v == -3 {
        "Catastrophic failure"@
    } else if v == -2 {
        "Major setback"@
    } else if v == -1 {
        "Minor setback"@
    } else if v == 0 {
        "Status quo"@
    } else if v == 1 {
        "Minor breakthrough"@
    } else if v == 2 {
        "Major success"@
    } else {
        "Extraordinary triumph"@
    }
}

/// `s` is the default table: seven entries for the sums `-3..=3` in order.
pub open spec fn is_default_table(s: Seq<FatesEntry>) -> bool {
    &&& s.len() == 7
    &&& forall|i: int|
        0 <= i < 7 ==> {
            &&& (#[trigger] s[i]).roll_value == i - 3
            &&& s[i].severity == default_severity(i - 3)
            &&& s[i].outcome@ == default_outcome(i - 3)
        }
}

/// Every prefix sum of `roll` fits in an `i8`.
pub open spec fn prefix_sums_fit_i8(roll: Seq<Trit>) -> bool {
    forall|k: int| 0 <= k <= roll.len() ==> i8::MIN <= #[trigger] trit_sum(roll.take(k)) <= i8::MAX
}

/// A lookup table from roll sums to narrative outcomes.
#[derive(Clone, Debug)]
pub struct FatesTable {
    entries: Vec<FatesEntry>,
}

impl View for FatesTable {
    type V = Seq<FatesEntry>;

    closed spec fn view(&self) -> Seq<FatesEntry> {
        self.entries@
    }
}

impl FatesTable {
    fn entry(roll_value: i8, outcome: &str, severity: Severity) -> (e: FatesEntry)
        ensures
            e.roll_value == roll_value,
            e.outcome@ == outcome@,
            e.severity == severity,
    {
        FatesEntry { roll_value, outcome: String::from_str(outcome), severity }
    }

    /// Creates the default table: seven entries covering the sums `-3..=3`,
    /// from `CriticalFail` to `CriticalSuccess`.
    pub fn new() -> (t: FatesTable)
        ensures
            is_default_table(t@),
            t@.len() == 7,
            t@[0].severity == Severity::CriticalFail,
            t@[1].severity == Severity::Fail,
            t@[2].severity == Severity::Fail,
            t@[3].severity == Severity::Neutral,
            t@[4].severity == Severity::Success,
            t@[5].severity == Severity::Success,
            t@[6].severity == Severity::CriticalSuccess,
    {
        let mut table = FatesTable { entries: Vec::new() };
        table.add(Self::entry(-3, "Catastrophic failure", Severity::CriticalFail));
        table.add(Self::entry(-2, "Major setback", Severity::Fail));
        table.add(Self::entry(-1, "Minor setback", Severity::Fail));
        table.add(Self::entry(0, "Status quo", Severity::Neutral));
        table.add(Self::entry(1, "Minor breakthrough", Severity::Success));
        table.add(Self::entry(2, "Major success", Severity::Success));
        table.add(Self::entry(3, "Extraordinary triumph", Severity::CriticalSuccess));
        assert forall|i: int| 0 <= i < 7 implies {
            &&& (#[trigger] table@[i]).roll_value == i - 3
            &&& table@[i].severity == default_severity(i - 3)
            &&& table@[i].outcome@ == default_outcome(i - 3)
        } by {}
        table
    }

    /// Appends an entry to the table.
    pub fn add(&mut self, entry: FatesEntry)
        ensures
            final(self)@ == old(self)@.push(entry),
    {
        self.entries.push(entry);
    }

    /// Looks up the first entry whose roll value is exactly `roll_sum`.
    pub fn lookup(&self, roll_sum: i8) -> (r: Option<&FatesEntry>)
        ensures
            r is Some <==> lookup_in(self@, roll_sum) is Some,
            r matches Some(e) ==> lookup_in(self@, roll_sum) == Some(*e),
            r matches Some(e) ==> exists|i: int|
                0 <= i < self@.len() && #[trigger] self@[i] == *e && e.roll_value == roll_sum && (
                forall|j: int| 0 <= j < i ==> (#[trigger] self@[j]).roll_value != roll_sum),
            r is None <==> forall|i: int| 0 <= i < self@.len() ==> (#[trigger] self@[i]).roll_value != roll_sum,
    {
        proof {
            lemma_lookup_in_first_match(self@, roll_sum);
        }
        let mut i: usize = 0;
        assert(self@.skip(0) == self@);
        while i < self.entries.len()
            invariant
                i <= self@.len(),
                lookup_in(self@, roll_sum) == lookup_in(self@.skip(i as int), roll_sum),
            decreases self@.len() - i,
        {
            assert(self@.skip(i as int)[0] == self@[i as int]);
            if self.entries[i].roll_value == roll_sum {
                proof {
                    lemma_lookup_in_first_match(self@, roll_sum);
                }
                return Some(&self.entries[i]);
            }
            assert(self@.skip(i as int).drop_first() == self@.skip(i as int + 1));
            i = i + 1;
        }
        assert(self@.skip(i as int).len() == 0);
        None
    }

    /// Sums the values of `roll` (an empty roll sums to `0`) and looks the
    /// sum up.
    pub fn evaluate(&self, roll: &[Trit]) -> (r: Option<&FatesEntry>)
        requires
            prefix_sums_fit_i8(roll@),
        ensures
            r is Some <==> lookup_in(self@, trit_sum(roll@) as i8) is Some,
            r matches Some(e) ==> lookup_in(self@, trit_sum(roll@) as i8) == Some(*e),
            r matches Some(e) ==> e.roll_value == trit_sum(roll@),
            r is None <==> forall|i: int|
                0 <= i < self@.len() ==> (#[trigger] self@[i]).roll_value != trit_sum(roll@),
    {
        let mut sum: i8 = 0;
        let mut i: usize = 0;
        while i < roll.len()
            invariant
                i <= roll@.len(),
                prefix_sums_fit_i8(roll@),
                sum == trit_sum(roll@.take(i as int)),
            decreases roll@.len() - i,
        {
            assert(roll@.take(i as int + 1).drop_last() == roll@.take(i as int));
            assert(i8::MIN <= trit_sum(roll@.take(i as int + 1)) <= i8::MAX);
            sum = sum + roll[i].value();
            i = i + 1;
        }
        assert(roll@.take(roll@.len() as int) == roll@);
        let r = self.lookup(sum);
        proof {
            lemma_lookup_in_first_match(self@, sum);
        }
        r
    }

    /// Returns the number of entries in the table.
    pub fn entry_count(&self) -> (n: usize)
        ensures
            n == self@.len(),
    {
        self.entries.len()
    }
}

impl Default for FatesTable {
    /// The default table.
    fn default() -> (t: FatesTable)
        ensures
            is_default_table(t@),
    {
        FatesTable::new()
    }
}

/// Adding an entry never hides an existing match; a sum with no earlier
/// match is answered by the added entry when its roll value is that sum.
pub proof fn lemma_lookup_after_add(s: Seq<FatesEntry>, e: FatesEntry, v: i8)
    ensures
        lookup_in(s.push(e), v) == if lookup_in(s, v) is Some {
            lookup_in(s, v)
        } else if e.roll_value == v {
            Some(e)
        } else {
            None::<FatesEntry>
        },
    decreases s.len(),
{
    assert(s.push(e)[0] == if s.len() > 0 { s[0] } else { e });
    if s.len() > 0 {
        assert(s.push(e).drop_first() == s.drop_first().push(e));
        lemma_lookup_after_add(s.drop_first(), e, v);
    } else {
        assert(s.push(e).drop_first().len() == 0);
    }
}

/// The default table answers every sum from `-3` to `3` with the entry for
/// that sum, and no other sum.
pub proof fn lemma_default_table_lookup(s: Seq<FatesEntry>, v: i8)
    requires
        is_default_table(s),
    ensures
        -3 <= v <= 3 ==> lookup_in(s, v) == Some(s[v + 3]),
        -3 <= v <= 3 ==> s[v + 3].severity == default_severity(v as int),
        !(-3 <= v <= 3) ==> lookup_in(s, v) is None,
{
    lemma_lookup_from(s, v, 0);
}

proof fn lemma_lookup_from(s: Seq<FatesEntry>, v: i8, k: int)
    requires
        is_default_table(s),
        0 <= k <= 7,
        forall|j: int| 0 <= j < k ==> (#[trigger] s[j]).roll_value != v,
    ensures
        lookup_in(s.skip(k), v) == lookup_in(s, v),
        -3 <= v <= 3 ==> lookup_in(s, v) == Some(s[v + 3]),
        !(-3 <= v <= 3) ==> lookup_in(s, v) is None,
    decreases 7 - k,
{
    assert(s.skip(0) == s);
    if k < 7 {
        assert(s.skip(k)[0] == s[k]);
        assert(s.skip(k).drop_first() == s.skip(k + 1));
        if s[k].roll_value == v {
            lemma_skip_prefix(s, v, k);
        } else {
            lemma_lookup_from(s, v, k + 1);
            lemma_skip_prefix(s, v, k);
        }
    } else {
        assert(s.skip(7).len() == 0);
        lemma_skip_prefix(s, v, k);
    }
}

proof fn lemma_skip_prefix(s: Seq<FatesEntry>, v: i8, k: int)
    requires
        0 <= k <= s.len(),
        forall|j: int| 0 <= j < k ==> (#[trigger] s[j]).roll_value != v,
    ensures
        lookup_in(s.skip(k), v) == lookup_in(s, v),
    decreases k,
{
    if k > 0 {
        assert(s.skip(k - 1)[0] == s[k - 1]);
        assert(s.skip(k - 1).drop_first() == s.skip(k));
        lemma_skip_prefix(s, v, k - 1);
    } else {
        assert(s.skip(0) == s);
    }
}

/// With the default table, every roll of at most three trits (the full
/// range of three balanced-ternary dice) has an entry.
pub proof fn lemma_default_table_covers_three_dice(s: Seq<FatesEntry>, roll: Seq<Trit>)
    requires
        is_default_table(s),
        roll.len() <= 3,
    ensures
        lookup_in(s, trit_sum(roll) as i8) is Some,
        prefix_sums_fit_i8(roll),
{
    lemma_trit_sum_bounds(roll);
    lemma_default_table_lookup(s, trit_sum(roll) as i8);
    assert forall|k: int| 0 <= k <= roll.len() implies i8::MIN <= #[trigger] trit_sum(roll.take(k))
        <= i8::MAX by {
        lemma_trit_sum_bounds(roll.take(k));
    }
}

/// Lookup finds the first entry whose roll value is exactly the sum, and
/// finds nothing exactly when no entry has that value.
pub proof fn lemma_lookup_in_first_match(s: Seq<FatesEntry>, v: i8)
    ensures
        lookup_in(s, v) matches Some(e) ==> exists|i: int|
            0 <= i < s.len() && #[trigger] s[i] == e && e.roll_value == v && (forall|j: int|
                0 <= j < i ==> (#[trigger] s[j]).roll_value != v),
        lookup_in(s, v) is None <==> forall|i: int| 0 <= i < s.len() ==> (#[trigger] s[i]).roll_value != v,
    decreases s.len(),
{
    if s.len() > 0 {
        let t = s.drop_first();
        lemma_lookup_in_first_match(t, v);
        assert forall|i: int| 0 <= i < t.len() implies #[trigger] t[i] == s[i + 1] by {}
        if s[0].roll_value == v {
            assert(s[0] == s[0]);
        } else {
            if lookup_in(t, v) is Some {
                let e = lookup_in(t, v)->0;
                let i = choose|i: int|
                    0 <= i < t.len() && #[trigger] t[i] == e && e.roll_value == v && (forall|j: int|
                        0 <= j < i ==> (#[trigger] t[j]).roll_value != v);
                assert(s[i + 1] == e);
                assert forall|j: int| 0 <= j < i + 1 implies (#[trigger] s[j]).roll_value != v by {
                    if j > 0 {
                        assert(s[j] == t[j - 1]);
                    }
                }
            } else {
                assert forall|i: int| 0 <= i < s.len() implies (#[trigger] s[i]).roll_value != v by {
                    if i > 0 {
                        assert(s[i] == t[i - 1]);
                    }
                }
            }
        }
    }
}

} // verus!
