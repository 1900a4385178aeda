use parallel_primes::primality::integer_sqrt;
use parallel_primes::primality::is_prime;

fn sieve(limit: usize) -> Vec<bool> {
    let mut prime = vec![true; limit.max(2)];
    prime[0] = false;
    prime[1] = false;
    let mut i = 2;
    while i * i < limit {
        if prime[i] {
            let mut j = i * i;
            while j < limit {
                prime[j] = false;
                j += i;
            }
        }
        i += 1;
    }
    prime
}

#[test]
fn two_is_prime() {
    assert!(is_prime(2));
}

#[test]
fn four_is_not_prime() {
    assert!(!is_prime(4));
}

#[test]
fn ninety_seven_is_prime() {
    assert!(is_prime(97));
}

#[test]
fn three_is_prime_though_its_root_is_one() {
    assert!(is_prime(3));
}

#[test]
fn squares_of_primes_are_not_prime() {
    assert!(!is_prime(9));
    assert!(!is_prime(25));
    assert!(!is_prime(49));
    assert!(!is_prime(121));
    assert!(!is_prime(65521 * 65521));
}

#[test]
fn products_of_neighbouring_primes_are_not_prime() {
    assert!(!is_prime(6));
    assert!(!is_prime(15));
    assert!(!is_prime(35));
    assert!(!is_prime(10403));
}

#[test]
fn large_values() {
    assert!(is_prime(1_000_000_007));
    assert!(!is_prime(1_000_000_007 * 3));
    assert!(!is_prime(u64::MAX));
    assert!(!is_prime(u64::MAX - 1));
}

#[test]
fn is_prime_agrees_with_a_sieve() {
    let limit = 5000;
    let reference = sieve(limit);
    for n in 2..limit {
        assert_eq!(is_prime(n as u64), reference[n], "n = {}", n);
    }
}

#[test]
fn integer_sqrt_of_small_values() {
    assert_eq!(integer_sqrt(0), 0);
    assert_eq!(integer_sqrt(1), 1);
    assert_eq!(integer_sqrt(2), 1);
    assert_eq!(integer_sqrt(3), 1);
    assert_eq!(integer_sqrt(4), 2);
    assert_eq!(integer_sqrt(8), 2);
    assert_eq!(integer_sqrt(9), 3);
}

#[test]
fn integer_sqrt_around_squares() {
    assert_eq!(integer_sqrt(15), 3);
    assert_eq!(integer_sqrt(16), 4);
    assert_eq!(integer_sqrt(17), 4);
    assert_eq!(integer_sqrt(999_999), 999);
    assert_eq!(integer_sqrt(1_000_000), 1000);
}

#[test]
fn integer_sqrt_at_the_top() {
    assert_eq!(integer_sqrt(u64::MAX), 4_294_967_295);
    assert_eq!(integer_sqrt(4_294_967_295 * 4_294_967_295), 4_294_967_295);
    assert_eq!(integer_sqrt(4_294_967_295 * 4_294_967_295 - 1), 4_294_967_294);
}

#[test]
fn integer_sqrt_brackets_every_value() {
    for n in 0..20_000u64 {
        let r = integer_sqrt(n);
        assert!(r * r <= n);
        assert!(n < (r + 1) * (r + 1));
    }
}
