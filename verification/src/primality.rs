//! Trial-division primality test, with the mathematical definition it meets.

use vstd::prelude::*;
use vstd::arithmetic::div_mod::lemma_fundamental_div_mod;
use vstd::arithmetic::div_mod::lemma_mod_multiples_basic;

verus! {

/// `n` is prime: at least 2 and divisible by nothing strictly between 1 and `n`.
pub open spec fn is_prime_number(n: nat) -> bool {
    n >= 2 && forall|d: nat| 2 <= d < n ==> #[trigger] (n % d) != 0
}

/// `r` is the integer square root of `n`: the largest `r` with `r * r <= n`.
pub open spec fn is_floor_sqrt(n: nat, r: nat) -> bool {
    r * r <= n && n < (r + 1) * (r + 1)
}

/// A number without a divisor in `[2, r]`, where `r` is its integer square
/// root, has no divisor in `[2, n)` at all.
pub proof fn lemma_no_small_divisor_is_prime(n: nat, r: nat)
    requires
        n >= 2,
        is_floor_sqrt(n, r),
        forall|d: nat| 2 <= d <= r ==> #[trigger] (n % d) != 0,
    ensures
        is_prime_number(n),
{
    assert forall|d: nat| 2 <= d < n implies #[trigger] (n % d) != 0 by {
        if d > r && n % d == 0 {
            let q: nat = n / d;
            lemma_fundamental_div_mod(n as int, d as int);
            assert(n == d * q);
            assert(q >= 2) by (nonlinear_arith)
                requires
                    n == d * q,
                    d < n,
                    d >= 2,
            ;
            assert(q <= r) by (nonlinear_arith)
                requires
                    n == d * q,
                    d >= r + 1,
                    n < (r + 1) * (r + 1),
            ;
            lemma_mod_multiples_basic(d as int, q as int);
            assert(d * q == q * d) by (nonlinear_arith);
            assert(n % q == 0);
        }
    }
}

/// The integer square root of `n`.
pub fn integer_sqrt(n: u64) -> (r: u64)
    ensures
        is_floor_sqrt(n as nat, r as nat),
        r <= 0xffff_ffff,
{
    let mut lo: u64 = 0;
    let mut hi: u64 = 0x1_0000_0000;
    assert(0x1_0000_0000u64 * 0x1_0000_0000u64 > n) by (nonlinear_arith)
        requires
            n <= u64::MAX,
    ;
    while hi - lo > 1
        invariant
            lo < hi <= 0x1_0000_0000,
            lo * lo <= n,
            n < hi * hi,
        decreases hi - lo,
    {
        let mid: u64 = lo + (hi - lo) / 2;
        assert(mid * mid <= u64::MAX) by (nonlinear_arith)
            requires
                mid <= 0xffff_ffff,
        ;
        if mid * mid <= n {
            lo = mid;
        } else {
            hi = mid;
        }
    }
    lo
}

/// Decides primality by trial division with every integer from 2 up to the
/// integer square root of `n`.
pub fn is_prime(n: u64) -> (prime: bool)
    requires
        n >= 2,
    ensures
        prime == is_prime_number(n as nat),
{
    let root: u64 = integer_sqrt(n);
    let sqr: u64 = root + 1;
    let mut i: u64 = 2;
    while i < sqr
        invariant
            n >= 2,
            sqr == root + 1,
            is_floor_sqrt(n as nat, root as nat),
            2 <= i,
            i <= sqr || sqr < 2,
            forall|d: nat| 2 <= d < i ==> #[trigger] ((n as nat) % d) != 0,
        decreases sqr - i,
    {
        if n % i == 0 {
            proof {
                assert(i < n) by (nonlinear_arith)
                    requires
                        i >= 2,
                        i <= root,
                        root * root <= n,
                ;
                assert((n as nat) % (i as nat) == 0);
            }
            return false;
        }
        i += 1;
    }
    proof {
        lemma_no_small_divisor_is_prime(n as nat, root as nat);
    }
    true
}

} // verus!
