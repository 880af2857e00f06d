use cuckoo_hash::{WUHashBuilder, WUHashError, DEFAULT_PRIME};

#[test]
#[should_panic]
fn no_modulus() {
    WUHashBuilder::new().finalize().unwrap();
}

#[test]
fn valid() {
    WUHashBuilder::new().modulus(10).finalize().unwrap();
}

#[test]
fn distributed() {
    const TABLE_SIZE: u64 = 1000;
    let wh = WUHashBuilder::new().modulus(TABLE_SIZE).finalize().unwrap();

    let mut ys: [u64; TABLE_SIZE as usize] = [0; TABLE_SIZE as usize];

    for i in 0..TABLE_SIZE {
        ys[wh.eval(i)] += 1
    }

    for i in 0..TABLE_SIZE {
        println!("{} has {}", i, ys[i as usize]);
        if ys[i as usize] > TABLE_SIZE / 100 {
            panic!("WUHash is not distributed")
        }
    }
}

#[test]
fn zero_modulus_is_an_error() {
    let r = WUHashBuilder::new().modulus(0).finalize();
    assert_eq!(r.unwrap_err(), WUHashError::ZeroModulus);
    assert_eq!(WUHashError::ZeroModulus.description(), "The table size (modulus) is zero!");
}

#[test]
fn modulus_one_succeeds() {
    let h = WUHashBuilder::new().modulus(1).finalize().unwrap();
    for x in 0..100u64 {
        assert_eq!(h.eval(x), 0);
    }
}

#[test]
fn eval_small_exact() {
    let h = WUHashBuilder::new().prime(7).modulus(4).a(3).b(5).finalize().unwrap();
    // ((3 * 2 + 5) mod 7) mod 4 = 4 mod 4
    assert_eq!(h.eval(2), 0);
    // ((3 * 1 + 5) mod 7) mod 4 = 1
    assert_eq!(h.eval(1), 1);
}

#[test]
fn eval_wide_arithmetic_is_exact() {
    let m = u64::MAX;
    let h = WUHashBuilder::new().modulus(1000).a(m).b(m).finalize().unwrap();
    // (m * m + m) mod DEFAULT_PRIME is 3422: the product does not wrap.
    assert_eq!(h.eval(m), 422);
    let h2 = WUHashBuilder::new().prime(DEFAULT_PRIME).modulus(97).a(123456789).b(55555).finalize().unwrap();
    assert_eq!(h2.eval(987654321), 77);
}

#[test]
fn eval_stays_below_modulus() {
    for m in [1u64, 2, 3, 10, 1000, 65537] {
        let h = WUHashBuilder::new().modulus(m).finalize().unwrap();
        for x in (0..2000u64).chain([u64::MAX, u64::MAX - 1]) {
            assert!((h.eval(x) as u64) < m);
        }
    }
}

#[test]
fn eval_is_deterministic() {
    let h = WUHashBuilder::new().modulus(1 << 20).finalize().unwrap();
    for x in 0..500u64 {
        assert_eq!(h.eval(x), h.eval(x));
    }
}

#[test]
fn random_coefficients_in_range() {
    let mut saw_other_than_one = false;
    for _ in 0..50 {
        let h = WUHashBuilder::new().modulus(10).finalize().unwrap();
        let (a, b) = h.coefficients();
        assert!(a >= 1 && a < DEFAULT_PRIME);
        assert!(b >= 1 && b < DEFAULT_PRIME);
        if a != 1 || b != 1 {
            saw_other_than_one = true;
        }
    }
    assert!(saw_other_than_one);
}

#[test]
fn distribution_chi_square() {
    const N: u64 = 20000;
    const M: u64 = 100;
    let h = WUHashBuilder::new().modulus(M).finalize().unwrap();
    let mut counts = vec![0u64; M as usize];
    for x in 0..N {
        counts[h.eval(x)] += 1;
    }
    let expected = (N / M) as f64;
    let chi: f64 = counts
        .iter()
        .map(|&c| {
            let d = c as f64 - expected;
            d * d / expected
        })
        .sum();
    // 99 degrees of freedom: the mean is 99, and 250 is far in the tail.
    assert!(chi < 250.0, "chi-square {}", chi);
    assert!(counts.iter().all(|&c| c <= 4 * N / M));
}
