use vstd::prelude::*;

verus! {

/// The state a generator starts in for a given seed: a seed of `0` is
/// replaced by `1`, because `0` is a fixed point of xorshift32.
pub open spec fn seed_state(seed: u32) -> u32 {
    if seed == 0 { 1 } else { seed }
}

/// One step of xorshift32: three shift-xor operations on a 32-bit state.
pub open spec fn xorshift32(x: u32) -> u32 {
    let a = x ^ (x << 13u32);
    let b = a ^ (a >> 17u32);
    b ^ (b << 5u32)
}

/// The state after `n` steps from state `s`.
pub open spec fn state_after(s: u32, n: nat) -> u32
    decreases n,
{
    if n == 0 { s } else { xorshift32(state_after(s, (n - 1) as nat)) }
}

/// A deterministic pseudo-random generator implementing xorshift32.
///
/// The same seed always produces the same sequence of outputs. The state is
/// never zero.
#[derive(Debug)]
pub struct Prng {
    state: u32,
}

impl View for Prng {
    type V = u32;

    closed spec fn view(&self) -> u32 {
        self.state
    }
}

impl Clone for Prng {
    /// Copies the generator; the copy continues the same sequence.
    fn clone(&self) -> (p: Self)
        ensures
            p@ == self@,
    {
        proof {
            use_type_invariant(self);
        }
        Prng { state: self.state }
    }
}

impl Prng {
    #[verifier::type_invariant]
    spec fn state_nonzero(self) -> bool {
        self.state != 0
    }

    /// Creates a new generator with the given seed. A seed of `0` is
    /// replaced with `1`.
    pub fn new(seed: u32) -> (p: Prng)
        ensures
            p@ == seed_state(seed),
            seed != 0 ==> p@ == seed,
            seed == 0 ==> p@ == 1,
    {
        Prng { state: if seed == 0 { 1 } else { seed } }
    }

    /// Advances the state one xorshift32 step and returns the new state.
    pub fn next_u32(&mut self) -> (r: u32)
        ensures
            final(self)@ == xorshift32(old(self)@),
            r == final(self)@,
            r != 0,
            ({
                let x = old(self)@;
                let a = x ^ (x << 13u32);
                let b = a ^ (a >> 17u32);
                r == b ^ (b << 5u32)
            }),
    {
        proof {
            use_type_invariant(&*self);
            lemma_xorshift32_nonzero(self.state);
        }
        let mut x = self.state;
        x ^= x << 13;
        x ^= x >> 17;
        x ^= x << 5;
        self.state = x;
        x
    }

    /// Returns a value in `[0, max)`: the next output reduced modulo `max`.
    pub fn next_range(&mut self, max: u32) -> (r: u32)
        requires
            max > 0,
        ensures
            final(self)@ == xorshift32(old(self)@),
            r == xorshift32(old(self)@) % max,
            r < max,
    {
        self.next_u32() % max
    }
}

/// A step of xorshift32 never reaches the all-zero state from another state.
pub proof fn lemma_xorshift32_nonzero(x: u32)
    requires
        x != 0,
    ensures
        xorshift32(x) != 0,
{
    assert(x != 0 ==> {
        let a = x ^ (x << 13u32);
        let b = a ^ (a >> 17u32);
        b ^ (b << 5u32) != 0
    }) by (bit_vector);
}

/// A step of xorshift32 is injective: distinct states have distinct
/// successors, so generators seeded differently (other than `0` and `1`)
/// give different first outputs.
pub proof fn lemma_xorshift32_injective(x: u32, y: u32)
    requires
        x != y,
    ensures
        xorshift32(x) != xorshift32(y),
{
    assert(x != y ==> {
        let a = x ^ (x << 13u32);
        let b = a ^ (a >> 17u32);
        let c = y ^ (y << 13u32);
        let d = c ^ (c >> 17u32);
        b ^ (b << 5u32) != d ^ (d << 5u32)
    }) by (bit_vector);
}

/// Generators whose seeds normalise to the same state (the same seed, or
/// the seeds `0` and `1`) produce the same sequence; any other two seeds
/// never agree at the same position of their sequences.
pub proof fn lemma_seed_determines_stream(a: u32, b: u32, n: nat)
    ensures
        (state_after(seed_state(a), n) == state_after(seed_state(b), n)) <==> (seed_state(a)
            == seed_state(b)),
    decreases n,
{
    if n > 0 {
        lemma_seed_determines_stream(a, b, (n - 1) as nat);
        let k = (n - 1) as nat;
        if state_after(seed_state(a), k) != state_after(seed_state(b), k) {
            lemma_xorshift32_injective(
                state_after(seed_state(a), k),
                state_after(seed_state(b), k),
            );
        }
    }
}

/// A generator starts in its seed's own state: the seed itself, with only
/// `0` replaced by `1`.
pub proof fn lemma_seed_state_is_seed(seed: u32)
    ensures
        seed != 0 ==> seed_state(seed) == seed,
        seed == 0 ==> seed_state(seed) == 1,
        seed_state(seed) != 0,
{
}

/// Distinct seeds other than the pair `0`, `1` give generators whose
/// streams differ at every position.
pub proof fn lemma_distinct_seeds_distinct_streams(a: u32, b: u32, n: nat)
    requires
        a != b,
        !(a == 0 && b == 1),
        !(a == 1 && b == 0),
    ensures
        state_after(seed_state(a), n) != state_after(seed_state(b), n),
{
    lemma_seed_state_is_seed(a);
    lemma_seed_state_is_seed(b);
    lemma_seed_determines_stream(a, b, n);
}

} // verus!
