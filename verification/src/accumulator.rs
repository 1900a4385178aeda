//! The accumulators of a run: the running sum, the running count and the
//! collection of retained primes, with the two retention policies.

use vstd::prelude::*;
use vstd::relations::sorted_by;
use vstd::seq_lib::lemma_sorted_unique;
use std::collections::VecDeque;
use crate::primes::ascending;
use crate::primes::keep_last;
use crate::primes::lemma_ascending_is_total;
use crate::primes::TOP_COUNT;

verus! {

/// The collection after `value` was appended under the sliding-window
/// policy: the front entry leaves once, where the collection then holds
/// more than ten.
pub open spec fn window_after(top: Seq<u64>, value: u64) -> Seq<u64> {
    if top.len() >= TOP_COUNT {
        top.push(value).drop_first()
    } else {
        top.push(value)
    }
}

/// The collection after the final trim: sorted ascending, all but the last
/// ten entries discarded.
pub open spec fn trimmed(top: Seq<u64>) -> Seq<u64> {
    keep_last(top.sort_by(ascending()), TOP_COUNT as nat)
}

/// Counts one more prime and adds it to the sum.
pub fn add_prime(sum: &mut u64, count: &mut u64, value: u64)
    requires
        *old(sum) + value <= u64::MAX,
        *old(count) < u64::MAX,
    ensures
        *final(sum) == *old(sum) + value,
        *final(count) == *old(count) + 1,
{
    *count = *count + 1;
    *sum = *sum + value;
}

/// Appends `value` to the collection and discards nothing: the policy of
/// the worker pool, whose collection is trimmed once, after the run.
pub fn record_candidate_for_top(top: &mut VecDeque<u64>, value: u64)
    ensures
        final(top)@ == old(top)@.push(value),
{
    top.push_back(value);
}

/// Appends `value` to the collection and discards the front entry where
/// the collection then holds more than ten: the policy of the sequential
/// run, which keeps the ten entries that came last.
pub fn record_in_window(top: &mut VecDeque<u64>, value: u64)
    ensures
        final(top)@ == window_after(old(top)@, value),
{
    top.push_back(value);
    if top.len() > TOP_COUNT {
        let _ = top.pop_front();
    }
}

/// Calls `sort` of std's slices on the entries of `items`. Taken from its
/// documentation: afterwards the entries stand in ascending order, and
/// they are the entries from before, each as often as before.
#[verifier::external_body]
fn sort_ascending(items: &mut Vec<u64>)
    ensures
        sorted_by(final(items)@, ascending()),
        final(items)@.to_multiset() == old(items)@.to_multiset(),
{
    items.sort();
}

/// The final trim: sorts the collection ascending and discards all but
/// its last ten entries. What comes out does not depend on the order in
/// which the entries arrived.
pub fn trim_top_primes(top: &mut VecDeque<u64>)
    ensures
        final(top)@ == trimmed(old(top)@),
{
    let mut items: Vec<u64> = Vec::new();
    while top.len() > 0
        invariant
            items@ + top@ == old(top)@,
        decreases top.len(),
    {
        let ghost before = top@;
        let front = top.pop_front();
        match front {
            Some(value) => {
                items.push(value);
                assert(items@ + top@ =~= old(top)@) by {
                    assert(before =~= seq![value] + top@);
                }
            },
            None => {},
        }
    }
    assert(items@ =~= old(top)@);
    sort_ascending(&mut items);
    proof {
        lemma_ascending_is_total();
        old(top)@.lemma_sort_by_ensures(ascending());
        lemma_sorted_unique(items@, old(top)@.sort_by(ascending()), ascending());
    }
    let len: usize = items.len();
    let start: usize = if len > TOP_COUNT {
        len - TOP_COUNT
    } else {
        0
    };
    let mut i: usize = start;
    while i < len
        invariant
            start <= i <= len,
            len == items@.len(),
            top@ == items@.subrange(start as int, i as int),
        decreases len - i,
    {
        top.push_back(items[i]);
        assert(top@ =~= items@.subrange(start as int, i + 1));
        i += 1;
    }
    assert(top@ =~= trimmed(old(top)@));
}

} // verus!
