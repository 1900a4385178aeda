//! The pool as a state machine: the shared cells, the primes that workers
//! hold between their claim and their merges, and the steps that workers
//! take on them in any order.

use vstd::prelude::*;
use vstd::multiset::Multiset;
use crate::agreement::pool_outcome;
use crate::cursor::after_claim;
use crate::cursor::claim_of;
use crate::cursor::fresh;
use crate::cursor::CursorView;
use crate::cursor::FIRST_CANDIDATE;
use crate::primality::is_prime_number;
use crate::primes::lemma_sum_of_any_order;
use crate::primes::primes_below;
use crate::primes::primes_between;
use crate::primes::sum_of;

verus! {

/// One step of one worker, each taken under the lock of the cell it
/// touches.
pub enum PoolStep {
    /// A worker claims at the cursor and tests what it got.
    Claim,
    /// A worker that holds this prime counts it.
    Count(u64),
    /// A worker that holds this prime adds it to the sum.
    Sum(u64),
    /// A worker that holds this prime appends it to the collection.
    Record(u64),
}

/// The pool at one moment.
pub struct PoolState {
    /// The cursor.
    pub cursor: CursorView,
    /// The primes counted so far, in the order of counting: the count
    /// cell holds their number.
    pub counted: Seq<u64>,
    /// The primes added to the sum so far, in the order of adding: the
    /// sum cell holds their sum.
    pub summed: Seq<u64>,
    /// The collection.
    pub top: Seq<u64>,
    /// The primes that some worker holds and has not counted yet.
    pub to_count: Multiset<u64>,
    /// The primes that some worker holds and has not added yet.
    pub to_sum: Multiset<u64>,
    /// The primes that some worker holds and has not appended yet.
    pub to_record: Multiset<u64>,
}

/// The pool before its workers start.
pub open spec fn pool_start(limit: nat) -> PoolState {
    PoolState {
        cursor: fresh(limit),
        counted: Seq::empty(),
        summed: Seq::empty(),
        top: Seq::empty(),
        to_count: Multiset::empty(),
        to_sum: Multiset::empty(),
        to_record: Multiset::empty(),
    }
}

/// The pool after one step. A merge of a prime that no worker holds is
/// no step of any worker, and changes nothing.
pub open spec fn pool_step(s: PoolState, step: PoolStep) -> PoolState {
    match step {
        PoolStep::Claim => match claim_of(s.cursor) {
            Some(v) => if is_prime_number(v as nat) {
                PoolState {
                    cursor: after_claim(s.cursor),
                    to_count: s.to_count.insert(v),
                    to_sum: s.to_sum.insert(v),
                    to_record: s.to_record.insert(v),
                    ..s
                }
            } else {
                PoolState { cursor: after_claim(s.cursor), ..s }
            },
            None => s,
        },
        PoolStep::Count(v) => if s.to_count.contains(v) {
            PoolState { counted: s.counted.push(v), to_count: s.to_count.remove(v), ..s }
        } else {
            s
        },
        PoolStep::Sum(v) => if s.to_sum.contains(v) {
            PoolState { summed: s.summed.push(v), to_sum: s.to_sum.remove(v), ..s }
        } else {
            s
        },
        PoolStep::Record(v) => if s.to_record.contains(v) {
            PoolState { top: s.top.push(v), to_record: s.to_record.remove(v), ..s }
        } else {
            s
        },
    }
}

/// The pool after the steps `steps`, taken in this order from the start.
pub open spec fn pool_after(limit: nat, steps: Seq<PoolStep>) -> PoolState
    decreases steps.len(),
{
    if steps.len() == 0 {
        pool_start(limit)
    } else {
        pool_step(pool_after(limit, steps.drop_last()), steps.last())
    }
}

/// Every worker has ended: the cursor is exhausted and no worker holds a
/// prime.
pub open spec fn pool_at_rest(s: PoolState) -> bool {
    &&& claim_of(s.cursor) is None
    &&& s.to_count.len() == 0
    &&& s.to_sum.len() == 0
    &&& s.to_record.len() == 0
}

/// What holds of the pool at every moment: what a cell has received and
/// what workers still hold for it are together the primes among the
/// candidates claimed so far.
pub open spec fn pool_invariant(limit: nat, s: PoolState) -> bool {
    let claimed = primes_between(FIRST_CANDIDATE as nat, s.cursor.next).to_multiset();
    &&& s.cursor.limit == limit
    &&& s.cursor.next >= FIRST_CANDIDATE
    &&& (s.cursor.next <= limit || s.cursor.next == FIRST_CANDIDATE)
    &&& s.counted.to_multiset().add(s.to_count) == claimed
    &&& s.summed.to_multiset().add(s.to_sum) == claimed
    &&& s.top.to_multiset().add(s.to_record) == claimed
}

/// A step keeps what holds of the pool at every moment.
pub proof fn lemma_step_keeps_invariant(limit: nat, s: PoolState, step: PoolStep)
    requires
        limit <= u64::MAX,
        pool_invariant(limit, s),
    ensures
        pool_invariant(limit, pool_step(s, step)),
{
    broadcast use vstd::multiset::group_multiset_axioms;
    broadcast use vstd::seq_lib::group_to_multiset_ensures;

    let t = pool_step(s, step);
    let found = primes_between(FIRST_CANDIDATE as nat, s.cursor.next);
    match step {
        PoolStep::Claim => {
            if s.cursor.next < limit {
                let v = s.cursor.next as u64;
                if is_prime_number(v as nat) {
                    let claimed = found.push(v).to_multiset();
                    assert(claimed =~= found.to_multiset().insert(v));
                    assert(t.counted.to_multiset().add(t.to_count) =~= claimed);
                    assert(t.summed.to_multiset().add(t.to_sum) =~= claimed);
                    assert(t.top.to_multiset().add(t.to_record) =~= claimed);
                }
            }
        },
        PoolStep::Count(v) => {
            if s.to_count.contains(v) {
                assert(t.counted.to_multiset() =~= s.counted.to_multiset().insert(v));
                assert(t.counted.to_multiset().add(t.to_count) =~= found.to_multiset());
            }
        },
        PoolStep::Sum(v) => {
            if s.to_sum.contains(v) {
                assert(t.summed.to_multiset() =~= s.summed.to_multiset().insert(v));
                assert(t.summed.to_multiset().add(t.to_sum) =~= found.to_multiset());
            }
        },
        PoolStep::Record(v) => {
            if s.to_record.contains(v) {
                assert(t.top.to_multiset() =~= s.top.to_multiset().insert(v));
                assert(t.top.to_multiset().add(t.to_record) =~= found.to_multiset());
            }
        },
    }
}

/// The invariant holds after any steps in any order.
pub proof fn lemma_invariant_always(limit: nat, steps: Seq<PoolStep>)
    requires
        limit <= u64::MAX,
    ensures
        pool_invariant(limit, pool_after(limit, steps)),
    decreases steps.len(),
{
    broadcast use vstd::multiset::group_multiset_axioms;
    broadcast use vstd::seq_lib::group_to_multiset_ensures;

    if steps.len() == 0 {
        let s = pool_start(limit);
        let claimed = primes_between(FIRST_CANDIDATE as nat, FIRST_CANDIDATE as nat);
        assert(claimed =~= Seq::<u64>::empty());
        assert(s.top.to_multiset().add(s.to_record) =~= claimed.to_multiset());
    } else {
        lemma_invariant_always(limit, steps.drop_last());
        lemma_step_keeps_invariant(limit, pool_after(limit, steps.drop_last()), steps.last());
    }
}

/// Whatever the number of workers and in whatever order they took their
/// steps: once all of them have ended, the collection holds every prime
/// below the limit exactly once, the count cell holds their number and
/// the sum cell their sum.
pub proof fn lemma_pool_at_rest(limit: nat, steps: Seq<PoolStep>)
    requires
        limit <= u64::MAX,
        pool_at_rest(pool_after(limit, steps)),
    ensures
        ({
            let s = pool_after(limit, steps);
            &&& pool_outcome(limit, sum_of(s.summed), s.counted.len(), s.top)
            &&& sum_of(s.summed) == sum_of(primes_below(limit))
            &&& s.counted.len() == primes_below(limit).len()
        }),
{
    broadcast use vstd::multiset::group_multiset_axioms;
    broadcast use vstd::seq_lib::group_to_multiset_ensures;

    let s = pool_after(limit, steps);
    lemma_invariant_always(limit, steps);
    let primes = primes_below(limit);
    if limit < FIRST_CANDIDATE {
        assert(primes =~= Seq::<u64>::empty());
        assert(primes_between(FIRST_CANDIDATE as nat, FIRST_CANDIDATE as nat) =~= Seq::<
            u64,
        >::empty());
    }
    assert(primes_between(FIRST_CANDIDATE as nat, s.cursor.next) == primes);
    assert(s.to_count =~= Multiset::<u64>::empty());
    assert(s.to_sum =~= Multiset::<u64>::empty());
    assert(s.to_record =~= Multiset::<u64>::empty());
    assert(s.counted.to_multiset() =~= primes.to_multiset());
    assert(s.summed.to_multiset() =~= primes.to_multiset());
    assert(s.top.to_multiset() =~= primes.to_multiset());
    lemma_sum_of_any_order(s.summed, primes);
    lemma_sum_of_any_order(s.top, primes);
    s.counted.to_multiset_ensures();
    primes.to_multiset_ensures();
}

} // verus!
