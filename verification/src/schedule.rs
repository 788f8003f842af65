//! The steps of one data-collection cycle.
//!
//! A cycle starts a collection of every polled attribute, waits, and bulk
//! copies what arrived; then, for each further try, it asks again for the
//! attributes that got no value, waits, and bulk copies again.

use vstd::prelude::*;

verus! {

/// One step of a collection cycle.
#[derive(Debug, Clone, Copy, PartialEq, Eq)]
pub enum CollectionStep {
    /// Send every polled attribute out for collection.
    StartCollection,
    /// Send out the attributes that got no value since the cycle started.
    RepeatCollection,
    /// Wait for the responses.
    Wait,
    /// Write the values received so far to the database.
    BulkCopy,
}

/// The first round of a cycle.
pub open spec fn first_round() -> Seq<CollectionStep> {
    seq![CollectionStep::StartCollection, CollectionStep::Wait, CollectionStep::BulkCopy]
}

/// A repeated round.
pub open spec fn repeat_round() -> Seq<CollectionStep> {
    seq![CollectionStep::RepeatCollection, CollectionStep::Wait, CollectionStep::BulkCopy]
}

/// `k` repeated rounds.
pub open spec fn repeat_rounds(k: nat) -> Seq<CollectionStep>
    decreases k,
{
    if k == 0 {
        Seq::<CollectionStep>::empty()
    } else {
        repeat_rounds((k - 1) as nat) + repeat_round()
    }
}

/// The number of rounds in a cycle with `retries` tries: one, plus one more
/// for each try after the first.
pub open spec fn round_count(retries: u8) -> nat {
    if retries <= 1 { 1 } else { retries as nat }
}

/// The steps of a cycle with `retries` tries.
pub open spec fn spec_collection_steps(retries: u8) -> Seq<CollectionStep> {
    first_round() + repeat_rounds((round_count(retries) - 1) as nat)
}

/// The steps of a cycle with `retries` tries, in order.
pub fn collection_steps(retries: u8) -> (r: Vec<CollectionStep>)
    ensures
        r@ == spec_collection_steps(retries),
{
    let mut r: Vec<CollectionStep> = Vec::new();
    r.push(CollectionStep::StartCollection);
    r.push(CollectionStep::Wait);
    r.push(CollectionStep::BulkCopy);
    assert(r@ =~= first_round() + repeat_rounds(0));
    let mut k: u8 = 1;
    while k < retries
        invariant
            1 <= k,
            k <= retries || k == 1,
            r@ =~= first_round() + repeat_rounds((k - 1) as nat),
        decreases retries - k,
    {
        r.push(CollectionStep::RepeatCollection);
        r.push(CollectionStep::Wait);
        r.push(CollectionStep::BulkCopy);
        proof {
            assert(repeat_rounds(k as nat) == repeat_rounds((k - 1) as nat) + repeat_round());
        }
        k = k + 1;
    }
    r
}

/// The step at position `i` of a cycle.
pub open spec fn step_at(i: int) -> CollectionStep {
    if i == 0 {
        CollectionStep::StartCollection
    } else if i % 3 == 0 {
        CollectionStep::RepeatCollection
    } else if i % 3 == 1 {
        CollectionStep::Wait
    } else {
        CollectionStep::BulkCopy
    }
}

proof fn lemma_repeat_rounds_shape(k: nat)
    ensures
        repeat_rounds(k).len() == 3 * k,
        forall|i: int| 0 <= i < 3 * k ==> #[trigger] repeat_rounds(k)[i] == step_at(i + 3),
    decreases k,
{
    if k > 0 {
        lemma_repeat_rounds_shape((k - 1) as nat);
        let a = repeat_rounds((k - 1) as nat);
        assert forall|i: int| 0 <= i < 3 * k implies #[trigger] repeat_rounds(k)[i] == step_at(i + 3) by {
            if i >= 3 * (k - 1) {
                assert(repeat_rounds(k)[i] == repeat_round()[i - 3 * (k - 1)]);
                assert((i + 3) % 3 == (i - 3 * (k - 1)) % 3) by (nonlinear_arith)
                    requires k >= 1;
            } else {
                assert(repeat_rounds(k)[i] == a[i]);
            }
        }
    }
}

/// A cycle with `retries` tries has `max(retries, 1)` rounds of three steps:
/// a collection request (the first starts the cycle, the others repeat it),
/// a wait, and a bulk copy. Every request is thus followed by a wait and a
/// bulk copy, and the cycle ends with a bulk copy.
pub proof fn lemma_collection_shape(retries: u8)
    ensures
        spec_collection_steps(retries).len() == 3 * round_count(retries),
        spec_collection_steps(retries).len() == if retries <= 1 { 3 } else { 3 * retries as int },
        forall|i: int| 0 <= i < spec_collection_steps(retries).len()
            ==> #[trigger] spec_collection_steps(retries)[i] == step_at(i),
        spec_collection_steps(retries).last() == CollectionStep::BulkCopy,
{
    let k = (round_count(retries) - 1) as nat;
    lemma_repeat_rounds_shape(k);
    let s = spec_collection_steps(retries);
    assert forall|i: int| 0 <= i < s.len() implies #[trigger] s[i] == step_at(i) by {
        if i >= 3 {
            assert(s[i] == repeat_rounds(k)[i - 3]);
        }
    }
    let n = s.len() as int;
    assert(s[n - 1] == step_at(n - 1));
    assert((n - 1) % 3 == 2) by (nonlinear_arith)
        requires n == 3 * (k + 1);
}

/// One try more adds exactly one repeated round at the end: for a cycle of
/// at least one try, the cycle with one try more is the same cycle followed
/// by a repeated request, a wait and a bulk copy. With no try or one, the
/// cycle is the single first round.
pub proof fn lemma_one_more_try(retries: u8)
    requires
        1 <= retries < 255,
    ensures
        spec_collection_steps((retries + 1) as u8) == spec_collection_steps(retries) + seq![
            CollectionStep::RepeatCollection,
            CollectionStep::Wait,
            CollectionStep::BulkCopy,
        ],
        spec_collection_steps(0) == seq![
            CollectionStep::StartCollection,
            CollectionStep::Wait,
            CollectionStep::BulkCopy,
        ],
        spec_collection_steps(1) == spec_collection_steps(0),
{
    let k = (retries - 1) as nat;
    assert(repeat_rounds(k + 1) == repeat_rounds(k) + repeat_round());
    assert(first_round() + repeat_rounds(k + 1) =~= first_round() + repeat_rounds(k) + repeat_round());
    assert(first_round() + repeat_rounds(0) =~= first_round());
}

} // verus!
