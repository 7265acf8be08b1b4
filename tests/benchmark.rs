use radish::benchmark::{
    calculate_fibonacci_like_rust, calculate_sum_rust, count_primes_parallel_rust,
    count_primes_sieve_rust, is_prime,
};

#[test]
fn test_calculate_sum() {
    assert_eq!(calculate_sum_rust(10), 55);
    assert_eq!(calculate_sum_rust(100), 5050);
}

#[test]
fn test_count_primes_sieve() {
    assert_eq!(count_primes_sieve_rust(10), 4);
    assert_eq!(count_primes_sieve_rust(100), 25);
}

#[test]
fn test_is_prime() {
    assert!(is_prime(2));
    assert!(is_prime(3));
    assert!(is_prime(5));
    assert!(is_prime(7));
    assert!(!is_prime(4));
    assert!(!is_prime(9));
}

#[test]
fn sum_of_nothing_is_zero() {
    assert_eq!(calculate_sum_rust(0), 0);
    assert_eq!(calculate_sum_rust(-5), 0);
    assert_eq!(calculate_sum_rust(1), 1);
}

#[test]
fn sum_matches_closed_form() {
    for n in 0..300i64 {
        assert_eq!(calculate_sum_rust(n), n * (n + 1) / 2);
    }
    assert_eq!(calculate_sum_rust(3_000_000), 4_500_001_500_000);
}

#[test]
fn recurrence_small_cases() {
    assert_eq!(calculate_fibonacci_like_rust(0), 0);
    assert_eq!(calculate_fibonacci_like_rust(-3), 0);
    assert_eq!(calculate_fibonacci_like_rust(1), 1);
    assert_eq!(calculate_fibonacci_like_rust(2), 3);
    assert_eq!(calculate_fibonacci_like_rust(3), 6);
    assert_eq!(calculate_fibonacci_like_rust(10), 231);
    assert_eq!(calculate_fibonacci_like_rust(50), 20365013371);
}

#[test]
fn recurrence_wraps_past_the_range_of_i64() {
    assert_eq!(calculate_fibonacci_like_rust(92), -6246583658587670213);
    assert_eq!(calculate_fibonacci_like_rust(93), 1293530146158676138);
    assert_eq!(calculate_fibonacci_like_rust(1000), 9079565065540434371);
}

#[test]
fn sieve_below_two_is_zero() {
    assert_eq!(count_primes_sieve_rust(1), 0);
    assert_eq!(count_primes_sieve_rust(0), 0);
    assert_eq!(count_primes_sieve_rust(-10), 0);
    assert_eq!(count_primes_sieve_rust(2), 1);
    assert_eq!(count_primes_sieve_rust(1000), 168);
}

#[test]
fn sieve_agrees_with_parallel_count() {
    for limit in -2..600i64 {
        assert_eq!(count_primes_sieve_rust(limit), count_primes_parallel_rust(limit));
    }
}

#[test]
fn parallel_count_is_repeatable() {
    let first = count_primes_parallel_rust(10_000);
    assert_eq!(first, 1229);
    for _ in 0..5 {
        assert_eq!(count_primes_parallel_rust(10_000), first);
    }
    assert_eq!(count_primes_parallel_rust(1), 0);
}

#[test]
fn trial_division_rejects_non_primes() {
    for n in [0i64, 1, 4, 6, 8, 9, 25, 49, 121, 169, -7, 1_000_000_008] {
        assert!(!is_prime(n));
    }
    for n in [11i64, 13, 29, 97, 1_000_000_007] {
        assert!(is_prime(n));
    }
    assert!(is_prime(2_147_483_647));
    assert!(!is_prime(2_147_483_649));
}
