use ternary_dice::{Prng, Trit};

#[test]
fn prng_deterministic() {
    let mut a = Prng::new(42);
    let mut b = Prng::new(42);
    for _ in 0..10 {
        assert_eq!(a.next_u32(), b.next_u32());
    }
}

#[test]
fn prng_nonzero_seed() {
    let mut prng = Prng::new(0);
    assert_ne!(prng.next_u32(), 0);
}

#[test]
fn prng_different_seeds() {
    let mut a = Prng::new(1);
    let mut b = Prng::new(2);
    assert_ne!(a.next_u32(), b.next_u32());
}

#[test]
fn prng_zero_seed_aliases_seed_one() {
    let mut a = Prng::new(0);
    let mut b = Prng::new(1);
    for _ in 0..16 {
        assert_eq!(a.next_u32(), b.next_u32());
    }
}

#[test]
fn prng_next_range_respects_bounds() {
    let mut prng = Prng::new(7);
    for _ in 0..1000 {
        let v = prng.next_range(6);
        assert!(v < 6, "next_range(6) returned {v} >= 6");
    }
}

#[test]
fn prng_next_range_uniform_distribution() {
    let mut prng = Prng::new(12345);
    let n = 60_000u32;
    let mut counts = [0u32; 3];
    for _ in 0..n {
        counts[prng.next_range(3) as usize] += 1;
    }
    let expected = n as f64 / 3.0;
    for c in counts {
        let deviation = (c as f64 - expected).abs() / expected;
        assert!(
            deviation < 0.03,
            "count {c} deviates {deviation:.4} > 0.03 from 1/3"
        );
    }
}

#[test]
fn trit_value_roundtrip() {
    for v in -1..=1i8 {
        let trit = Trit::from_i8(v).expect("valid trit value");
        assert_eq!(trit.value(), v);
    }
}

#[test]
fn trit_from_i8_rejects_out_of_domain() {
    assert_eq!(Trit::from_i8(-2), None);
    assert_eq!(Trit::from_i8(2), None);
    assert_eq!(Trit::from_i8(i8::MIN), None);
    assert_eq!(Trit::from_i8(i8::MAX), None);
}

#[test]
fn trit_values_exact() {
    assert_eq!(Trit::Neg.value(), -1);
    assert_eq!(Trit::Zero.value(), 0);
    assert_eq!(Trit::Pos.value(), 1);
    for t in [Trit::Neg, Trit::Zero, Trit::Pos] {
        assert_eq!(Trit::from_i8(t.value()), Some(t));
    }
}

#[test]
fn prng_first_outputs_exact() {
    // One xorshift32 step: x ^= x << 13; x ^= x >> 17; x ^= x << 5.
    let mut one = Prng::new(1);
    assert_eq!(one.next_u32(), 270369);
    let mut p = Prng::new(42);
    assert_eq!(p.next_u32(), 11355432);
    assert_eq!(p.next_u32(), 2836018348);
}

#[test]
fn prng_next_range_is_output_modulo_max() {
    let mut p = Prng::new(7);
    let mut q = Prng::new(7);
    let r = p.next_range(6);
    assert_eq!(r, q.next_u32() % 6);
    assert_eq!(r, 3);
    // The state advanced exactly like next_u32.
    assert_eq!(p.next_u32(), q.next_u32());
}

#[test]
fn prng_distinct_seeds_distinct_first_outputs() {
    let mut firsts = Vec::new();
    for seed in 1..200u32 {
        firsts.push(Prng::new(seed).next_u32());
    }
    for i in 0..firsts.len() {
        for j in (i + 1)..firsts.len() {
            assert_ne!(firsts[i], firsts[j]);
        }
    }
}

#[test]
fn prng_outputs_stay_nonzero() {
    let mut p = Prng::new(0);
    for _ in 0..10_000 {
        assert_ne!(p.next_u32(), 0);
    }
}

#[test]
fn prng_clone_continues_same_stream() {
    let mut a = Prng::new(99);
    a.next_u32();
    let mut b = a.clone();
    for _ in 0..8 {
        assert_eq!(a.next_u32(), b.next_u32());
    }
}
