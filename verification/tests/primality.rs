use window_csv::primality::is_prime;

#[test]
fn known_values() {
    assert!(is_prime(2));
    assert!(is_prime(3));
    assert!(!is_prime(4));
    assert!(is_prime(17));
    assert!(is_prime(1_000_000_007));
    assert!(!is_prime(1_000_000_008));
}

#[test]
fn small_edge_cases() {
    assert!(!is_prime(0));
    assert!(!is_prime(1));
    assert!(is_prime(5));
    assert!(!is_prime(9));
    assert!(!is_prime(25));
    assert!(is_prime(97));
}

#[test]
fn square_boundaries() {
    assert!(!is_prime(49));
    assert!(!is_prime(121));
    assert!(is_prime(127));
    assert!(!is_prime(65_536));
    assert!(is_prime(65_537));
}

#[test]
fn agrees_with_miller_rabin_oracle() {
    for n in 0u64..=300 {
        assert_eq!(
            is_prime(n),
            is_prime::is_prime(&n.to_string()),
            "disagreement at {}",
            n
        );
    }
}
