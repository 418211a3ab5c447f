use range_permutation::{create, Error, Permutation};
use std::collections::HashSet;

#[test]
fn is_permutation() {
    let n: u64 = 1000;
    let perm = create(n).unwrap();
    let mut results = HashSet::new();
    for i in 0..n {
        let p = perm.evaluate(i).unwrap();
        assert!(p < n);
        results.insert(p);
    }
    assert_eq!(results.len(), n as usize);
}

#[test]
fn checks_range() {
    let perm = create(1).unwrap();
    assert!(perm.evaluate(0).is_ok());
    assert!(perm.evaluate(1).is_err())
}

#[test]
fn singleton_maps_zero_to_zero() {
    let perm = create(1).unwrap();
    assert_eq!(perm.evaluate(0).unwrap(), 0);
}

#[test]
fn empty_domain_is_invalid() {
    assert_eq!(create(0).unwrap_err(), Error::InvalidDomain);
    assert_eq!(Permutation::new(0, 29, 7).unwrap_err(), Error::InvalidDomain);
}

#[test]
fn out_of_range_is_rejected() {
    let perm = create(10).unwrap();
    assert_eq!(perm.evaluate(10).unwrap_err(), Error::OutOfRange);
    assert_eq!(perm.evaluate(11).unwrap_err(), Error::OutOfRange);
    assert_eq!(perm.evaluate(u64::MAX).unwrap_err(), Error::OutOfRange);
}

#[test]
fn non_power_of_two_size_permutes() {
    // The padded domain is [0, 16), so cycle-walking is exercised.
    let n: u64 = 10;
    let perm = create(n).unwrap();
    let mut seen = vec![false; n as usize];
    for i in 0..n {
        let p = perm.evaluate(i).unwrap();
        assert!(p < n);
        assert!(!seen[p as usize]);
        seen[p as usize] = true;
    }
    assert!(seen.iter().all(|&s| s));
}

#[test]
fn power_of_two_size_permutes() {
    let n: u64 = 64;
    let perm = create(n).unwrap();
    let mut results = HashSet::new();
    for i in 0..n {
        let p = perm.evaluate(i).unwrap();
        assert!(p < n);
        results.insert(p);
    }
    assert_eq!(results.len(), n as usize);
}

#[test]
fn same_configuration_is_deterministic() {
    let a = Permutation::new(1000, 29, 0xDEADBEEF).unwrap();
    let b = Permutation::new(1000, 29, 0xDEADBEEF).unwrap();
    for i in 0..1000 {
        assert_eq!(a.evaluate(i).unwrap(), b.evaluate(i).unwrap());
    }
}

#[test]
fn create_is_deterministic() {
    let a = create(500).unwrap();
    let b = create(500).unwrap();
    for i in 0..500 {
        assert_eq!(a.evaluate(i).unwrap(), b.evaluate(i).unwrap());
    }
}

#[test]
fn different_keys_give_different_permutations() {
    let n: u64 = 1000;
    let a = Permutation::new(n, 29, 1).unwrap();
    let b = Permutation::new(n, 29, 2).unwrap();
    let va: Vec<u64> = (0..n).map(|i| a.evaluate(i).unwrap()).collect();
    let vb: Vec<u64> = (0..n).map(|i| b.evaluate(i).unwrap()).collect();
    assert_ne!(va, vb);
}

#[test]
fn huge_domain_evaluates_in_range() {
    let n = u64::MAX;
    let perm = create(n).unwrap();
    for i in [0u64, 1, 12345, n - 1] {
        let p = perm.evaluate(i).unwrap();
        assert!(p < n);
    }
}

#[test]
fn scenario_create_ten() {
    let perm = create(10).unwrap();
    let mut results = HashSet::new();
    for i in 0..10 {
        let p = perm.evaluate(i).unwrap();
        assert!(p < 10);
        results.insert(p);
    }
    assert_eq!(results.len(), 10);
    assert_eq!(perm.evaluate(10).unwrap_err(), Error::OutOfRange);
    assert_eq!(create(1).unwrap().evaluate(0).unwrap(), 0);
}

#[test]
fn small_domains_permute() {
    for n in 1..=9u64 {
        let perm = create(n).unwrap();
        let mut results = HashSet::new();
        for i in 0..n {
            let p = perm.evaluate(i).unwrap();
            assert!(p < n);
            results.insert(p);
        }
        assert_eq!(results.len(), n as usize);
    }
}
