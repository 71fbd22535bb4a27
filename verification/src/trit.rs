use vstd::prelude::*;

verus! {

/// A single balanced ternary value drawn from the set {-1, 0, +1}.
#[derive(Clone, Copy, Debug, PartialEq, Eq, Hash)]
pub enum Trit {
    /// The negative digit, with numeric value -1.
    Neg,
    /// The zero digit, with numeric value 0.
    Zero,
    /// The positive digit, with numeric value +1.
    Pos,
}

/// The numeric value of a trit.
pub open spec fn trit_value(t: Trit) -> int {
    match t {
        Trit::Neg => -1,
        Trit::Zero => 0,
        Trit::Pos => 1,
    }
}

/// The sum of the numeric values of a sequence of trits.
pub open spec fn trit_sum(s: Seq<Trit>) -> int
    decreases s.len(),
{
    if s.len() == 0 {
        0
    } else {
        trit_sum(s.drop_last()) + trit_value(s.last())
    }
}

/// How many times `t` occurs in `s`.
pub open spec fn count_of(s: Seq<Trit>, t: Trit) -> nat
    decreases s.len(),
{
    if s.len() == 0 {
        0
    } else {
        count_of(s.drop_last(), t) + if s.last() == t { 1nat } else { 0nat }
    }
}

impl Trit {
    /// Returns the signed numeric value of this trit (`-1`, `0`, or `+1`).
    pub fn value(self) -> (v: i8)
        ensures
            v == trit_value(self),
            self == Trit::Neg ==> v == -1,
            self == Trit::Zero ==> v == 0,
            self == Trit::Pos ==> v == 1,
    {
        match self {
            Trit::Neg => -1,
            Trit::Zero => 0,
            Trit::Pos => 1,
        }
    }

    /// Constructs a `Trit` from an `i8`, returning `None` for any value
    /// outside `{-1, 0, 1}`.
    pub fn from_i8(v: i8) -> (r: Option<Trit>)
        ensures
            r is Some <==> -1 <= v <= 1,
            r matches Some(t) ==> trit_value(t) == v,
            v == -1 ==> r == Some(Trit::Neg),
            v == 0 ==> r == Some(Trit::Zero),
            v == 1 ==> r == Some(Trit::Pos),
    {
        match v {
            -1 => Some(Trit::Neg),
            0 => Some(Trit::Zero),
            1 => Some(Trit::Pos),
            _ => None,
        }
    }
}

/// A trit is determined by its value, so `from_i8` undoes `value`: every
/// trit's value lies in the domain that `from_i8` accepts, and two trits with
/// the same value are the same trit.
pub proof fn lemma_value_determines_trit(a: Trit, b: Trit)
    ensures
        -1 <= trit_value(a) <= 1,
        trit_value(a) == trit_value(b) ==> a == b,
{
}

/// The sum of `n` trits lies between `-n` and `n`.
pub proof fn lemma_trit_sum_bounds(s: Seq<Trit>)
    ensures
        -(s.len() as int) <= trit_sum(s) <= s.len(),
    decreases s.len(),
{
    if s.len() > 0 {
        lemma_trit_sum_bounds(s.drop_last());
    }
}

/// The sum of a sequence of trits is the number of `Pos` minus the number
/// of `Neg`, and the three counts add up to the length.
pub proof fn lemma_sum_is_count_difference(s: Seq<Trit>)
    ensures
        trit_sum(s) == count_of(s, Trit::Pos) - count_of(s, Trit::Neg),
        count_of(s, Trit::Neg) + count_of(s, Trit::Zero) + count_of(s, Trit::Pos) == s.len(),
    decreases s.len(),
{
    if s.len() > 0 {
        lemma_sum_is_count_difference(s.drop_last());
    }
}

/// Sums add up over concatenation, and a single trit sums to `-1`, `0` or
/// `+1` for `Neg`, `Zero`, `Pos`.
pub proof fn lemma_trit_sum_concat(a: Seq<Trit>, b: Seq<Trit>)
    ensures
        trit_sum(a + b) == trit_sum(a) + trit_sum(b),
        trit_sum(seq![Trit::Neg]) == -1,
        trit_sum(seq![Trit::Zero]) == 0,
        trit_sum(seq![Trit::Pos]) == 1,
        trit_sum(Seq::<Trit>::empty()) == 0,
    decreases b.len(),
{
    reveal_with_fuel(trit_sum, 2);
    assert(seq![Trit::Neg].drop_last() == Seq::<Trit>::empty());
    assert(seq![Trit::Zero].drop_last() == Seq::<Trit>::empty());
    assert(seq![Trit::Pos].drop_last() == Seq::<Trit>::empty());
    if b.len() == 0 {
        assert(a + b == a);
    } else {
        lemma_trit_sum_concat(a, b.drop_last());
        assert((a + b).drop_last() == a + b.drop_last());
    }
}

/// Counts add up over concatenation, and a single trit counts once for
/// itself and zero times for the other values.
pub proof fn lemma_count_of_concat(a: Seq<Trit>, b: Seq<Trit>, t: Trit)
    ensures
        count_of(a + b, t) == count_of(a, t) + count_of(b, t),
        forall|u: Trit| count_of(seq![u], t) == if u == t { 1nat } else { 0nat },
        count_of(Seq::<Trit>::empty(), t) == 0,
    decreases b.len(),
{
    assert forall|u: Trit| count_of(seq![u], t) == if u == t { 1nat } else { 0nat } by {
        reveal_with_fuel(count_of, 2);
        assert(seq![u].drop_last() == Seq::<Trit>::empty());
        assert(seq![u].last() == u);
    }
    if b.len() == 0 {
        assert(a + b == a);
    } else {
        lemma_count_of_concat(a, b.drop_last(), t);
        assert((a + b).drop_last() == a + b.drop_last());
    }
}

} // verus!
