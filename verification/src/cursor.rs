//! The work cursor: the single point through which every candidate passes,
//! and the progress signal derived from a claimed candidate.

use vstd::prelude::*;

verus! {

/// The first candidate that a fresh cursor hands out.
pub const FIRST_CANDIDATE: u64 = 2;

/// A claimed candidate that is a multiple of this emits a progress signal.
pub const PROGRESS_STRIDE: u64 = 1_000_000;

/// What a cursor is: the candidate it hands out next and the bound below
/// which candidates lie.
pub struct CursorView {
    pub next: nat,
    pub limit: nat,
}

/// A monotonically advancing counter over the candidates `[2, limit)`.
pub struct WorkCursor {
    next: u64,
    limit: u64,
}

impl View for WorkCursor {
    type V = CursorView;

    closed spec fn view(&self) -> CursorView {
        CursorView { next: self.next as nat, limit: self.limit as nat }
    }
}

/// The claim that a cursor in state `c` answers with.
pub open spec fn claim_of(c: CursorView) -> Option<u64> {
    if c.next < c.limit {
        Some(c.next as u64)
    } else {
        None
    }
}

/// The state of a cursor after it has answered one claim in state `c`.
pub open spec fn after_claim(c: CursorView) -> CursorView {
    if c.next < c.limit {
        CursorView { next: c.next + 1, limit: c.limit }
    } else {
        c
    }
}

/// The state of a cursor after `k` claims, whoever made them.
pub open spec fn after_claims(c: CursorView, k: nat) -> CursorView
    decreases k,
{
    if k == 0 {
        c
    } else {
        after_claim(after_claims(c, (k - 1) as nat))
    }
}

/// The state of a cursor made for `limit` before any claim.
pub open spec fn fresh(limit: nat) -> CursorView {
    CursorView { next: FIRST_CANDIDATE as nat, limit }
}

impl WorkCursor {
    /// The cursor never stands below 2, and passes its limit only where
    /// the limit itself lies below 2. This holds of every cursor in
    /// running code.
    #[verifier::type_invariant]
    pub open spec fn wf(&self) -> bool {
        &&& self@.next >= FIRST_CANDIDATE
        &&& self@.limit <= u64::MAX
        &&& (self@.next <= self@.limit || self@.next == FIRST_CANDIDATE)
    }

    /// The candidates claimed so far: every integer from 2 up to the cursor.
    pub open spec fn claimed(&self) -> Set<nat> {
        Set::new(|v: nat| FIRST_CANDIDATE <= v < self@.next)
    }

    /// No candidate below the limit is left.
    pub open spec fn exhausted(&self) -> bool {
        self@.next >= self@.limit
    }

    /// A cursor over the candidates `[2, limit)`.
    pub fn new(limit: u64) -> (cursor: WorkCursor)
        ensures
            cursor@ == fresh(limit as nat),
            cursor.wf(),
            cursor.claimed() == Set::<nat>::empty(),
    {
        let cursor = WorkCursor { next: FIRST_CANDIDATE, limit };
        assert(cursor.claimed() =~= Set::<nat>::empty());
        cursor
    }

    /// The bound below which candidates lie.
    pub fn limit(&self) -> (limit: u64)
        ensures
            limit == self@.limit,
    {
        self.limit
    }

    /// Whether every candidate has been claimed.
    pub fn is_exhausted(&self) -> (done: bool)
        ensures
            done == self.exhausted(),
    {
        self.next >= self.limit
    }

    /// Hands out the next candidate and advances past it, or signals
    /// exhaustion and leaves the cursor where it is. A candidate that was
    /// handed out once is never handed out again.
    pub fn claim_next(&mut self) -> (claim: Option<u64>)
        ensures
            final(self).wf(),
            claim == claim_of(old(self)@),
            final(self)@ == after_claim(old(self)@),
            claim is Some <==> !old(self).exhausted(),
            claim is Some ==> {
                let v = claim->Some_0 as nat;
                &&& FIRST_CANDIDATE <= v < old(self)@.limit
                &&& !old(self).claimed().contains(v)
                &&& final(self).claimed() == old(self).claimed().insert(v)
            },
            claim is None ==> final(self).claimed() == old(self).claimed(),
    {
        proof {
            use_type_invariant(&*self);
        }
        if self.next < self.limit {
            let candidate: u64 = self.next;
            self.next = candidate + 1;
            assert(self.claimed() =~= old(self).claimed().insert(candidate as nat));
            Some(candidate)
        } else {
            None
        }
    }
}

/// Whether a claimed candidate emits a progress signal.
pub fn is_progress_point(candidate: u64) -> (emit: bool)
    ensures
        emit == (candidate % PROGRESS_STRIDE == 0),
{
    candidate % PROGRESS_STRIDE == 0
}

/// The share of the range that lies below `candidate`, in whole percent,
/// rounded down.
pub fn progress_percent(candidate: u64, limit: u64) -> (percent: u64)
    requires
        limit > 0,
        candidate <= limit,
    ensures
        percent == (candidate * 100) / (limit as int),
        percent <= 100,
{
    let scaled: u128 = (candidate as u128) * 100u128;
    let wide: u128 = scaled / (limit as u128);
    assert(wide <= 100) by (nonlinear_arith)
        requires
            wide == (candidate * 100) / (limit as int),
            limit > 0,
            candidate <= limit,
    ;
    wide as u64
}

/// The progress signal that a claimed candidate emits, if it emits one.
pub fn progress_signal(candidate: u64, limit: u64) -> (signal: Option<u64>)
    requires
        limit > 0,
        candidate <= limit,
    ensures
        signal == if candidate % PROGRESS_STRIDE == 0 {
            Some(((candidate * 100) / (limit as int)) as u64)
        } else {
            None
        },
{
    if is_progress_point(candidate) {
        Some(progress_percent(candidate, limit))
    } else {
        None
    }
}

/// From a fresh cursor, whatever the number of workers and whoever asks,
/// the claims are answered with 2, 3, 4, ... in turn: the claim number `k`
/// (counted from 0) is answered with `2 + k` as long as that is below the
/// limit, and with exhaustion from then on.
pub proof fn lemma_claims_in_turn(limit: nat, k: nat)
    ensures
        after_claims(fresh(limit), k).limit == limit,
        FIRST_CANDIDATE + k <= limit ==> after_claims(fresh(limit), k).next == FIRST_CANDIDATE + k,
        FIRST_CANDIDATE + k > limit ==> after_claims(fresh(limit), k).next == if limit
            >= FIRST_CANDIDATE {
            limit
        } else {
            FIRST_CANDIDATE as nat
        },
        FIRST_CANDIDATE + k < limit <= u64::MAX ==> claim_of(after_claims(fresh(limit), k)) == Some(
            (FIRST_CANDIDATE + k) as u64,
        ),
        FIRST_CANDIDATE + k >= limit ==> claim_of(after_claims(fresh(limit), k)) is None,
    decreases k,
{
    if k > 0 {
        lemma_claims_in_turn(limit, (k - 1) as nat);
    }
}

/// Every candidate of `[2, limit)` is handed out exactly once: the
/// candidate `v` is the answer to the claim number `v - 2` and to no other.
pub proof fn lemma_each_candidate_claimed_once(limit: nat, v: u64, k: nat)
    requires
        limit <= u64::MAX,
        FIRST_CANDIDATE <= v < limit,
    ensures
        claim_of(after_claims(fresh(limit), (v - FIRST_CANDIDATE) as nat)) == Some(v),
        claim_of(after_claims(fresh(limit), k)) == Some(v) ==> k == v - FIRST_CANDIDATE,
{
    lemma_claims_in_turn(limit, (v - FIRST_CANDIDATE) as nat);
    lemma_claims_in_turn(limit, k);
}

/// No claim is answered with anything outside `[2, limit)`.
pub proof fn lemma_claims_stay_in_range(limit: nat, k: nat)
    requires
        limit <= u64::MAX,
    ensures
        claim_of(after_claims(fresh(limit), k)) matches Some(v) ==> FIRST_CANDIDATE <= v < limit,
{
    lemma_claims_in_turn(limit, k);
}

} // verus!
