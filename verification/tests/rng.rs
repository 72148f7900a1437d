use cece::cat::Rng;

/// The index the original `f64` arithmetic picks: `next() * m` truncated.
fn float_pick(rng: &mut Rng, n: usize, last: Option<usize>) -> usize {
    let next = (rng.raw() >> 11) as f64 / (1u64 << 53) as f64;
    match last {
        Some(l) if n > 1 && l < n => (l + 1 + (next * (n - 1) as f64) as usize % (n - 1)) % n,
        _ => (next * n as f64) as usize % n,
    }
}

#[test]
fn never_the_same_twice_in_a_row() {
    let mut rng = Rng::new(5);
    let mut last = None;
    let mut seen = [false; 15];
    for _ in 0..500 {
        let i = rng.other(15, last);
        assert_ne!(Some(i), last);
        seen[i] = true;
        last = Some(i);
    }
    assert!(seen.iter().all(|s| *s));
}

#[test]
fn picks_what_the_float_formula_picks() {
    let sizes = [1usize, 2, 3, 4, 15, 1000, 1 << 40, (1 << 53) + 1, usize::MAX / 3, usize::MAX];
    let mut a = Rng::new(42);
    let mut b = Rng::new(42);
    let mut steer = Rng::new(7);
    for round in 0..20000usize {
        let n = sizes[round % sizes.len()];
        let last = match steer.raw() % 3 {
            0 => None,
            1 => Some((steer.raw() as usize) % n),
            _ => Some(n),
        };
        // Counting on from `last` must not overflow.
        if matches!(last, Some(l) if n > 1 && l < n && l.checked_add(n - 1).is_none()) {
            continue;
        }
        let expected = float_pick(&mut b, n, last);
        let got = a.other(n, last);
        assert_eq!(got, expected, "n {n} last {last:?}");
        assert!(got < n);
    }
}

#[test]
fn raw_is_xorshift_star() {
    let mut rng = Rng::new(0);
    let mut s: u64 = 1;
    for _ in 0..100 {
        s ^= s >> 12;
        s ^= s << 25;
        s ^= s >> 27;
        assert_eq!(rng.raw(), s.wrapping_mul(0x2545_f491_4f6c_dd1d));
    }
}

#[test]
fn draws_are_53_bits_and_chance_compares_them() {
    let mut a = Rng::new(99);
    let mut b = Rng::new(99);
    let mut c = Rng::new(99);
    for _ in 0..1000 {
        let d = a.draw53();
        assert!(d < 1 << 53);
        assert_eq!(d, b.raw() >> 11);
        assert_eq!(c.chance(1 << 52), d < 1 << 52);
    }
}

#[test]
fn forks_are_seeded_from_a_draw() {
    let mut a = Rng::new(3);
    let mut b = Rng::new(3);
    let mut child = a.fork();
    let mut same = Rng::new(b.raw());
    assert_eq!(child.raw(), same.raw());
    assert_eq!(a.raw(), b.raw());
}

#[test]
fn the_half_and_the_35_percent_thresholds_are_exact() {
    assert_eq!(cece::cat::HALF as f64 / (1u64 << 53) as f64, 0.5);
    let t = cece::cat::LIKELY_ALERT;
    assert!((t as f64) / ((1u64 << 53) as f64) >= 0.35);
    assert!(((t - 1) as f64) / ((1u64 << 53) as f64) < 0.35);
}
