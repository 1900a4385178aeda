//! The mathematical model of an enumeration: the ascending sequence of the
//! primes in a range, sums of sequences, and the last entries of a sequence.

use vstd::prelude::*;
use vstd::relations::sorted_by;
use vstd::relations::total_ordering;
use vstd::seq_lib::lemma_fold_left_permutation;
use vstd::seq_lib::lemma_sorted_unique;
use crate::primality::is_prime_number;

verus! {

/// The primes `p` with `lo <= p < hi`, in ascending order.
pub open spec fn primes_between(lo: nat, hi: nat) -> Seq<u64>
    decreases hi,
{
    if hi <= lo {
        Seq::empty()
    } else if is_prime_number((hi - 1) as nat) {
        primes_between(lo, (hi - 1) as nat).push((hi - 1) as u64)
    } else {
        primes_between(lo, (hi - 1) as nat)
    }
}

/// The primes below `limit`, in ascending order.
pub open spec fn primes_below(limit: nat) -> Seq<u64> {
    primes_between(2, limit)
}

/// The operator that `sum_of` folds with.
pub open spec fn plus() -> spec_fn(nat, u64) -> nat {
    |acc: nat, v: u64| acc + v as nat
}

/// The sum of the entries of `s`, as a natural number.
pub open spec fn sum_of(s: Seq<u64>) -> nat {
    s.fold_left(0nat, plus())
}

/// The order on `u64` by which retained primes are sorted.
pub open spec fn ascending() -> spec_fn(u64, u64) -> bool {
    |a: u64, b: u64| a <= b
}

/// The last `k` entries of `s`, or all of `s` where it has fewer.
pub open spec fn keep_last(s: Seq<u64>, k: nat) -> Seq<u64> {
    if s.len() <= k {
        s
    } else {
        s.subrange(s.len() - k, s.len() as int)
    }
}

/// How many primes the retained collection holds at most.
pub const TOP_COUNT: usize = 10;

/// The sum of a sequence grows by the entry that is appended.
pub proof fn lemma_sum_of_push(s: Seq<u64>, v: u64)
    ensures
        sum_of(s.push(v)) == sum_of(s) + v as nat,
{
    assert(s.push(v).drop_last() =~= s);
}

/// The sum of a sequence does not depend on the order of its entries.
pub proof fn lemma_sum_of_any_order(a: Seq<u64>, b: Seq<u64>)
    requires
        a.to_multiset() == b.to_multiset(),
    ensures
        sum_of(a) == sum_of(b),
{
    assert(vstd::seq_lib::commutative_foldl(plus()));
    lemma_fold_left_permutation(a, b, plus(), 0nat);
}

/// `primes_between(lo, hi)` holds exactly the primes of `[lo, hi)`, each
/// once, smallest first.
pub proof fn lemma_primes_between_exact(lo: nat, hi: nat)
    requires
        hi <= u64::MAX + 1,
    ensures
        forall|i: int|
            0 <= i < primes_between(lo, hi).len() ==> {
                let p = #[trigger] primes_between(lo, hi)[i];
                lo <= p < hi && is_prime_number(p as nat)
            },
        forall|i: int, j: int|
            0 <= i < j < primes_between(lo, hi).len() ==> primes_between(lo, hi)[i]
                < primes_between(lo, hi)[j],
        forall|p: u64|
            lo <= p < hi && is_prime_number(p as nat) ==> primes_between(lo, hi).contains(p),
        primes_between(lo, hi).len() <= hi,
    decreases hi,
{
    if hi > lo {
        let rest = primes_between(lo, (hi - 1) as nat);
        lemma_primes_between_exact(lo, (hi - 1) as nat);
        let last = (hi - 1) as u64;
        if is_prime_number((hi - 1) as nat) {
            let all = rest.push(last);
            assert(all[rest.len() as int] == last);
            assert forall|p: u64| lo <= p < hi && is_prime_number(p as nat) implies all.contains(
                p,
            ) by {
                if p < hi - 1 {
                    let i = choose|i: int| 0 <= i < rest.len() && rest[i] == p;
                    assert(all[i] == p);
                } else {
                    assert(all[rest.len() as int] == p);
                }
            }
        } else {
            assert forall|p: u64| lo <= p < hi && is_prime_number(p as nat) implies rest.contains(
                p,
            ) by {
                assert(p < hi - 1);
            }
        }
    }
}

/// The sum of the primes of `[lo, hi)` stays under half the square of `hi`.
pub proof fn lemma_prime_sum_bound(lo: nat, hi: nat)
    requires
        hi <= u64::MAX + 1,
    ensures
        2 * sum_of(primes_between(lo, hi)) <= hi * hi,
    decreases hi,
{
    if hi > lo {
        lemma_prime_sum_bound(lo, (hi - 1) as nat);
        let rest = primes_between(lo, (hi - 1) as nat);
        lemma_sum_of_push(rest, (hi - 1) as u64);
        assert(2 * sum_of(rest) + 2 * (hi - 1) <= hi * hi) by (nonlinear_arith)
            requires
                2 * sum_of(rest) <= (hi - 1) * (hi - 1),
                hi >= 1,
        ;
    } else {
        assert(0 <= hi * hi) by (nonlinear_arith);
    }
}

/// The primes of a shorter range are fewer and sum to less: for
/// `mid <= hi`, the count and the sum over `[lo, mid)` do not exceed those
/// over `[lo, hi)`.
pub proof fn lemma_shorter_range_is_smaller(lo: nat, mid: nat, hi: nat)
    requires
        mid <= hi,
    ensures
        sum_of(primes_between(lo, mid)) <= sum_of(primes_between(lo, hi)),
        primes_between(lo, mid).len() <= primes_between(lo, hi).len(),
    decreases hi,
{
    if hi > mid {
        lemma_shorter_range_is_smaller(lo, mid, (hi - 1) as nat);
        if hi > lo && is_prime_number((hi - 1) as nat) {
            lemma_sum_of_push(primes_between(lo, (hi - 1) as nat), (hi - 1) as u64);
        }
    }
}

/// Keeping the last ten while appending one by one keeps the last ten of
/// the whole.
pub proof fn lemma_keep_last_push(s: Seq<u64>, v: u64, k: nat)
    requires
        k >= 1,
    ensures
        keep_last(s.push(v), k) == if keep_last(s, k).len() >= k {
            keep_last(s, k).push(v).drop_first()
        } else {
            keep_last(s, k).push(v)
        },
{
    if s.len() >= k {
        assert(keep_last(s.push(v), k) =~= keep_last(s, k).push(v).drop_first());
    } else {
        assert(keep_last(s.push(v), k) =~= keep_last(s, k).push(v));
    }
}

/// Sorting any arrangement of the primes of `[lo, hi)` gives them back in
/// ascending order.
pub proof fn lemma_sorted_arrival_is_ascending(arrival: Seq<u64>, lo: nat, hi: nat)
    requires
        hi <= u64::MAX + 1,
        arrival.to_multiset() == primes_between(lo, hi).to_multiset(),
    ensures
        arrival.sort_by(ascending()) == primes_between(lo, hi),
{
    lemma_ascending_is_total();
    arrival.lemma_sort_by_ensures(ascending());
    lemma_primes_between_exact(lo, hi);
    assert(sorted_by(primes_between(lo, hi), ascending()));
    lemma_sorted_unique(arrival.sort_by(ascending()), primes_between(lo, hi), ascending());
}

/// `<=` on `u64` is a total order.
pub proof fn lemma_ascending_is_total()
    ensures
        total_ordering(ascending()),
{
}

} // verus!
