//! The single-threaded baseline: the same enumeration without a shared
//! cursor, with the sliding-window retention policy.

use vstd::prelude::*;
use std::collections::VecDeque;
use crate::accumulator::add_prime;
use crate::accumulator::record_in_window;
use crate::cursor::FIRST_CANDIDATE;
use crate::primality::is_prime;
use crate::primality::is_prime_number;
use crate::primes::keep_last;
use crate::primes::lemma_keep_last_push;
use crate::primes::lemma_primes_between_exact;
use crate::primes::lemma_shorter_range_is_smaller;
use crate::primes::lemma_sum_of_push;
use crate::primes::primes_below;
use crate::primes::primes_between;
use crate::primes::sum_of;
use crate::primes::TOP_COUNT;

verus! {

/// Enumerates the primes below `limit` in ascending order and returns
/// their sum, their count and the ten that were found last.
///
/// The sum is held in 64 bits: a limit whose primes sum to more is not
/// admitted. Every limit up to 2^32 is (`lemma_prime_sum_bound`).
pub fn find_primes_single(limit: u64) -> (found: (u64, u64, VecDeque<u64>))
    requires
        sum_of(primes_below(limit as nat)) <= u64::MAX,
    ensures
        found.0 == sum_of(primes_below(limit as nat)),
        found.1 == primes_below(limit as nat).len(),
        found.2@ == keep_last(primes_below(limit as nat), TOP_COUNT as nat),
{
    let mut i: u64 = FIRST_CANDIDATE;
    let mut sum: u64 = 0;
    let mut num_primes: u64 = 0;
    let mut top_primes: VecDeque<u64> = VecDeque::new();
    assert(primes_between(2, 2) =~= Seq::<u64>::empty());
    while i < limit
        invariant
            FIRST_CANDIDATE <= i,
            i <= limit || (limit < FIRST_CANDIDATE && i == FIRST_CANDIDATE),
            sum_of(primes_below(limit as nat)) <= u64::MAX,
            sum == sum_of(primes_between(2, i as nat)),
            num_primes == primes_between(2, i as nat).len(),
            top_primes@ == keep_last(primes_between(2, i as nat), TOP_COUNT as nat),
        decreases limit - i,
    {
        proof {
            let found = primes_between(2, i as nat);
            lemma_shorter_range_is_smaller(2, (i + 1) as nat, limit as nat);
            lemma_primes_between_exact(2, (i + 1) as nat);
            if is_prime_number(i as nat) {
                lemma_sum_of_push(found, i);
                lemma_keep_last_push(found, i, TOP_COUNT as nat);
            }
        }
        if is_prime(i) {
            add_prime(&mut sum, &mut num_primes, i);
            record_in_window(&mut top_primes, i);
        }
        i += 1;
    }
    proof {
        if limit < FIRST_CANDIDATE {
            assert(primes_below(limit as nat) =~= Seq::<u64>::empty());
            assert(primes_between(2, 2) =~= Seq::<u64>::empty());
        }
    }
    (sum, num_primes, top_primes)
}

} // verus!
