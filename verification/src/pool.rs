//! One worker of the pool: claim a candidate, test it, merge a prime into
//! the accumulators, until the cursor is exhausted.

use vstd::prelude::*;
use std::collections::VecDeque;
use crate::accumulator::add_prime;
use crate::accumulator::record_candidate_for_top;
use crate::cursor::progress_signal;
use crate::cursor::WorkCursor;
use crate::cursor::FIRST_CANDIDATE;
use crate::cursor::PROGRESS_STRIDE;
use crate::primality::is_prime;
use crate::primality::is_prime_number;
use crate::primes::lemma_shorter_range_is_smaller;
use crate::primes::lemma_sum_of_push;
use crate::primes::primes_between;
use crate::primes::sum_of;

verus! {

/// What a worker does with the answer to one claim.
#[derive(Clone, Copy, Debug, PartialEq, Eq, Structural)]
pub enum Verdict {
    /// The cursor is exhausted: the worker ends.
    Stop,
    /// The candidate is no prime: nothing is merged.
    Skip { progress: Option<u64> },
    /// The candidate is a prime: it is merged into the accumulators.
    Merge { prime: u64, progress: Option<u64> },
}

/// The verdict on the answer `claim` of a cursor with the bound `limit`.
pub open spec fn verdict_of(claim: Option<u64>, limit: u64) -> Verdict {
    match claim {
        None => Verdict::Stop,
        Some(candidate) => {
            let progress = if candidate % PROGRESS_STRIDE == 0 {
                Some(((candidate * 100) / (limit as int)) as u64)
            } else {
                None
            };
            if is_prime_number(candidate as nat) {
                Verdict::Merge { prime: candidate, progress }
            } else {
                Verdict::Skip { progress }
            }
        },
    }
}

/// Decides what a worker does with the answer to its claim: it ends on
/// exhaustion, and else tests the candidate and says whether to merge it,
/// together with the progress signal that the candidate emits.
pub fn examine(claim: Option<u64>, limit: u64) -> (verdict: Verdict)
    requires
        claim matches Some(candidate) ==> FIRST_CANDIDATE <= candidate < limit,
    ensures
        verdict == verdict_of(claim, limit),
{
    match claim {
        None => Verdict::Stop,
        Some(candidate) => {
            let progress = progress_signal(candidate, limit);
            if is_prime(candidate) {
                Verdict::Merge { prime: candidate, progress }
            } else {
                Verdict::Skip { progress }
            }
        },
    }
}

/// The primes among the candidates that `cursor` has not handed out yet,
/// in ascending order.
pub open spec fn primes_left(cursor: WorkCursor) -> Seq<u64> {
    primes_between(cursor@.next, cursor@.limit)
}

/// Runs one worker on cells that it holds alone: it claims candidates
/// until the cursor is exhausted, and merges each prime among them into
/// the sum, the count and the collection, which is not trimmed. Every
/// candidate that was left is claimed, and the primes among them are
/// appended in ascending order.
pub fn prime_thread(
    cursor: &mut WorkCursor,
    sum: &mut u64,
    count: &mut u64,
    top_primes: &mut VecDeque<u64>,
)
    requires
        *old(sum) + sum_of(primes_left(*old(cursor))) <= u64::MAX,
        *old(count) + primes_left(*old(cursor)).len() <= u64::MAX,
    ensures
        final(cursor).wf(),
        final(cursor).exhausted(),
        final(cursor)@.limit == old(cursor)@.limit,
        final(cursor)@.next == if old(cursor).exhausted() {
            old(cursor)@.next
        } else {
            old(cursor)@.limit
        },
        *final(sum) == *old(sum) + sum_of(primes_left(*old(cursor))),
        *final(count) == *old(count) + primes_left(*old(cursor)).len(),
        final(top_primes)@ == old(top_primes)@ + primes_left(*old(cursor)),
{
    let limit: u64 = cursor.limit();
    let ghost start: nat = cursor@.next;
    proof {
        use_type_invariant(&*cursor);
        if cursor.exhausted() {
            assert(primes_left(*cursor) =~= Seq::<u64>::empty());
        }
        assert(primes_between(start, start) =~= Seq::<u64>::empty());
        assert(top_primes@ + Seq::<u64>::empty() =~= top_primes@);
    }
    loop
        invariant
            cursor.wf(),
            cursor@.limit == limit,
            limit == old(cursor)@.limit,
            start == old(cursor)@.next,
            start <= cursor@.next,
            old(cursor).exhausted() ==> cursor@.next == start,
            *old(sum) + sum_of(primes_between(start, limit as nat)) <= u64::MAX,
            *old(count) + primes_between(start, limit as nat).len() <= u64::MAX,
            *sum == *old(sum) + sum_of(primes_between(start, cursor@.next)),
            *count == *old(count) + primes_between(start, cursor@.next).len(),
            top_primes@ == old(top_primes)@ + primes_between(start, cursor@.next),
        ensures
            cursor.exhausted(),
        decreases limit - cursor@.next,
    {
        let ghost before: nat = cursor@.next;
        let claim = cursor.claim_next();
        proof {
            if claim is Some {
                lemma_shorter_range_is_smaller(start, before + 1, limit as nat);
                let found = primes_between(start, before);
                if is_prime_number(before) {
                    lemma_sum_of_push(found, before as u64);
                    assert(old(top_primes)@ + found.push(before as u64) =~= (old(top_primes)@
                        + found).push(before as u64));
                }
            }
        }
        match examine(claim, limit) {
            Verdict::Stop => {
                break ;
            },
            Verdict::Skip { progress: _ } => {},
            Verdict::Merge { prime, progress: _ } => {
                add_prime(sum, count, prime);
                record_candidate_for_top(top_primes, prime);
            },
        }
    }
    proof {
        if !old(cursor).exhausted() {
            assert(cursor@.next == limit);
        } else {
            assert(primes_between(start, start) =~= Seq::<u64>::empty());
        }
    }
}

} // verus!
