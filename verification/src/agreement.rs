//! What the worker pool and the sequential baseline agree on, whatever the
//! order in which the workers' primes arrive.

use vstd::prelude::*;
use crate::accumulator::trimmed;
use crate::primality::is_prime_number;
use crate::primes::keep_last;
use crate::primes::lemma_primes_between_exact;
use crate::primes::lemma_sorted_arrival_is_ascending;
use crate::primes::lemma_sum_of_any_order;
use crate::primes::primes_below;
use crate::primes::sum_of;
use crate::primes::TOP_COUNT;

verus! {

/// The accumulators after a run of the pool over `[2, limit)`: every prime
/// below `limit` has arrived in the collection exactly once, in some order
/// `arrival`, and was counted and added to the sum as it arrived.
pub open spec fn pool_outcome(limit: nat, sum: nat, count: nat, arrival: Seq<u64>) -> bool {
    &&& arrival.to_multiset() == primes_below(limit).to_multiset()
    &&& sum == sum_of(arrival)
    &&& count == arrival.len()
}

/// What the sequential run over `[2, limit)` returns.
pub open spec fn baseline_outcome(limit: nat, sum: nat, count: nat, top: Seq<u64>) -> bool {
    &&& sum == sum_of(primes_below(limit))
    &&& count == primes_below(limit).len()
    &&& top == keep_last(primes_below(limit), TOP_COUNT as nat)
}

/// The primes below `limit`, as a set.
pub open spec fn prime_set_below(limit: nat) -> Set<u64> {
    Set::new(|p: u64| 2 <= p < limit && is_prime_number(p as nat))
}

/// The sequence of the primes below `limit` holds each prime below
/// `limit` once and nothing else, so its length is the number of primes
/// below `limit`.
pub proof fn lemma_count_is_number_of_primes(limit: nat)
    requires
        limit <= u64::MAX + 1,
    ensures
        primes_below(limit).to_set() == prime_set_below(limit),
        prime_set_below(limit).finite(),
        primes_below(limit).len() == prime_set_below(limit).len(),
{
    let primes = primes_below(limit);
    lemma_primes_between_exact(2, limit);
    assert(primes.no_duplicates());
    primes.unique_seq_to_set();
    assert(primes.to_set() =~= prime_set_below(limit)) by {
        assert forall|p: u64| primes.to_set().contains(p) implies prime_set_below(limit).contains(
            p,
        ) by {
            let i = choose|i: int| 0 <= i < primes.len() && primes[i] == p;
            assert(primes[i] == p);
        }
    }
}

/// The pool and the sequential run over the same limit agree on the sum
/// and on the count, in whatever order the pool's primes arrived.
pub proof fn lemma_runs_agree(
    limit: nat,
    pool_sum: nat,
    pool_count: nat,
    arrival: Seq<u64>,
    single_sum: nat,
    single_count: nat,
    single_top: Seq<u64>,
)
    requires
        pool_outcome(limit, pool_sum, pool_count, arrival),
        baseline_outcome(limit, single_sum, single_count, single_top),
    ensures
        pool_sum == single_sum,
        pool_count == single_count,
{
    lemma_sum_of_any_order(arrival, primes_below(limit));
    arrival.to_multiset_ensures();
    primes_below(limit).to_multiset_ensures();
}

/// After the final trim the pool's collection holds the last ten of the
/// ascending sequence of the primes below `limit`, in whatever order they
/// arrived.
pub proof fn lemma_trimmed_arrival(limit: nat, arrival: Seq<u64>)
    requires
        limit <= u64::MAX + 1,
        arrival.to_multiset() == primes_below(limit).to_multiset(),
    ensures
        trimmed(arrival) == keep_last(primes_below(limit), TOP_COUNT as nat),
{
    lemma_sorted_arrival_is_ascending(arrival, 2, limit);
}

/// The last ten of the ascending sequence of the primes below `limit` are
/// the ten largest primes below `limit`, smallest first: they are primes
/// below `limit`, strictly ascending, ten of them where there are as many
/// primes and all primes else, and every prime below `limit` that is not
/// among them is smaller than each of them.
pub proof fn lemma_kept_are_the_largest(limit: nat)
    requires
        limit <= u64::MAX + 1,
    ensures
        ({
            let kept = keep_last(primes_below(limit), TOP_COUNT as nat);
            &&& kept.len() == if primes_below(limit).len() <= TOP_COUNT {
                primes_below(limit).len()
            } else {
                TOP_COUNT as nat
            }
            &&& forall|i: int|
                0 <= i < kept.len() ==> 2 <= #[trigger] kept[i] < limit && is_prime_number(
                    kept[i] as nat,
                )
            &&& forall|i: int, j: int| 0 <= i < j < kept.len() ==> kept[i] < kept[j]
            &&& forall|p: u64, i: int|
                2 <= p < limit && is_prime_number(p as nat) && !(#[trigger] kept.contains(p)) && 0
                    <= i < kept.len() ==> p < #[trigger] kept[i]
        }),
{
    let primes = primes_below(limit);
    let kept = keep_last(primes, TOP_COUNT as nat);
    let skip: int = primes.len() - kept.len();
    lemma_primes_between_exact(2, limit);
    assert forall|i: int| 0 <= i < kept.len() implies kept[i] == primes[skip + i] by {}
    assert forall|i: int| 0 <= i < kept.len() implies 2 <= #[trigger] kept[i] < limit
        && is_prime_number(kept[i] as nat) by {
        assert(kept[i] == primes[skip + i]);
    }
    assert forall|i: int, j: int| 0 <= i < j < kept.len() implies kept[i] < kept[j] by {
        assert(kept[i] == primes[skip + i]);
        assert(kept[j] == primes[skip + j]);
    }
    assert forall|p: u64, i: int|
        2 <= p < limit && is_prime_number(p as nat) && !(#[trigger] kept.contains(p)) && 0 <= i
            < kept.len() implies p < #[trigger] kept[i] by {
        assert(primes.contains(p));
        let k = choose|k: int| 0 <= k < primes.len() && primes[k] == p;
        if k >= skip {
            assert(kept[k - skip] == p);
        }
        assert(kept[i] == primes[skip + i]);
    }
}

/// The two retention policies give the same collection: what the
/// sequential run keeps in its sliding window is what the final trim
/// leaves of the pool's collection.
pub proof fn lemma_policies_coincide(
    limit: nat,
    pool_sum: nat,
    pool_count: nat,
    arrival: Seq<u64>,
    single_sum: nat,
    single_count: nat,
    single_top: Seq<u64>,
)
    requires
        limit <= u64::MAX + 1,
        pool_outcome(limit, pool_sum, pool_count, arrival),
        baseline_outcome(limit, single_sum, single_count, single_top),
    ensures
        trimmed(arrival) == single_top,
{
    lemma_trimmed_arrival(limit, arrival);
}

} // verus!
