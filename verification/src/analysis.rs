//! The integer core of the analysis pipeline: adaptive bin counts,
//! bin filling, quantile sampling, the per-slot request state machine,
//! and the worker's cooperative-cancellation decisions.  The
//! floating-point passes around this core run outside the library and
//! feed it plain values.

use vstd::prelude::*;

verus! {

broadcast use vstd::std_specs::vec::group_vec_axioms, vstd::seq::group_seq_axioms;

/// The sample size above which quantiles are estimated from a random
/// sample instead of the full dataset.
pub const QUARTILE_SAMPLES: usize = 200;

/// The adaptive bin count: a fifth of the dataset, at least 5, at most
/// the requested maximum.
pub open spec fn bin_count_spec(len: int, max: int) -> int {
    if len / 5 < 5 {
        5
    } else if len / 5 > max {
        max
    } else {
        len / 5
    }
}

/// Picks the bin count for a dataset.
pub fn bin_count_for(len: usize, max_bin_count: usize) -> (r: usize)
    requires
        max_bin_count >= 5,
    ensures
        r == bin_count_spec(len as int, max_bin_count as int),
        5 <= r <= max_bin_count,
{
    let fifth = len / 5;
    if fifth < 5 {
        5
    } else if fifth > max_bin_count {
        max_bin_count
    } else {
        fifth
    }
}

/// How many values were mapped into some bin.
pub open spec fn count_some(slots: Seq<Option<usize>>) -> int
    decreases slots.len(),
{
    if slots.len() == 0 {
        0
    } else {
        count_some(slots.drop_last()) + if slots.last() is Some {
            1int
        } else {
            0int
        }
    }
}

/// How many values were mapped into bin `b`.
pub open spec fn count_bin(slots: Seq<Option<usize>>, b: int) -> int
    decreases slots.len(),
{
    if slots.len() == 0 {
        0
    } else {
        count_bin(slots.drop_last(), b) + if slots.last() == Some(b as usize) && b >= 0 {
            1int
        } else {
            0int
        }
    }
}

/// The total count over all bins.
pub open spec fn sum_bins(bins: Seq<usize>) -> int
    decreases bins.len(),
{
    if bins.len() == 0 {
        0
    } else {
        sum_bins(bins.drop_last()) + bins.last()
    }
}

/// Raising one bin raises the total by one.
proof fn lemma_sum_bins_update(bins: Seq<usize>, b: int)
    requires
        0 <= b < bins.len(),
        bins[b] < usize::MAX,
    ensures
        sum_bins(bins.update(b, (bins[b] + 1) as usize)) == sum_bins(bins) + 1,
    decreases bins.len(),
{
    let upd = bins.update(b, (bins[b] + 1) as usize);
    if b == bins.len() - 1 {
        assert(upd.drop_last() =~= bins.drop_last());
        assert(upd.last() == (bins[b] + 1) as usize);
    } else {
        assert(upd.drop_last() =~= bins.drop_last().update(b, (bins[b] + 1) as usize));
        assert(upd.last() == bins.last());
        lemma_sum_bins_update(bins.drop_last(), b);
    }
}

/// No bin holds more than the count of mapped values.
proof fn lemma_count_bin_le_some(slots: Seq<Option<usize>>, b: int)
    ensures
        0 <= count_bin(slots, b) <= count_some(slots),
    decreases slots.len(),
{
    if slots.len() > 0 {
        lemma_count_bin_le_some(slots.drop_last(), b);
    }
}

/// Counts the values mapped into each of `bin_count` bins.  Every bin
/// holds exactly the number of values mapped to its index, and the
/// bins sum to the number of mapped values: skipped values (a `None`
/// slot, a non-finite mapped position) are the only ones missing.
pub fn fill_bins(slots: &Vec<Option<usize>>, bin_count: usize) -> (r: Vec<usize>)
    requires
        forall|j: int|
            0 <= j < slots@.len() ==> ((#[trigger] slots@[j]) matches Some(b) ==> b
                < bin_count),
    ensures
        r@.len() == bin_count,
        forall|b: int| 0 <= b < bin_count ==> #[trigger] r@[b] == count_bin(slots@, b),
        sum_bins(r@) == count_some(slots@),
{
    let mut bins: Vec<usize> = Vec::new();
    let mut k: usize = 0;
    while k < bin_count
        invariant
            0 <= k <= bin_count,
            bins@.len() == k,
            forall|b: int| 0 <= b < k ==> #[trigger] bins@[b] == 0,
        decreases bin_count - k,
    {
        bins.push(0);
        k += 1;
    }
    proof {
        lemma_zero_bins(bins@);
        assert(count_some(slots@.take(0)) == 0);
        assert(forall|b: int|
            0 <= b < bin_count ==> #[trigger] count_bin(slots@.take(0), b) == 0);
    }
    let n = slots.len();
    let mut i: usize = 0;
    while i < n
        invariant
            0 <= i <= n,
            n == slots@.len(),
            forall|j: int|
                0 <= j < slots@.len() ==> ((#[trigger] slots@[j]) matches Some(b) ==> b
                    < bin_count),
            bins@.len() == bin_count,
            forall|b: int|
                0 <= b < bin_count ==> #[trigger] bins@[b] == count_bin(
                    slots@.take(i as int),
                    b,
                ),
            sum_bins(bins@) == count_some(slots@.take(i as int)),
        decreases n - i,
    {
        proof {
            assert(slots@.take(i + 1).drop_last() =~= slots@.take(i as int));
            assert(slots@.take(i + 1).last() == slots@[i as int]);
        }
        match slots[i] {
            Some(b) => {
                let ghost bins0 = bins@;
                proof {
                    lemma_count_bin_le_some(slots@.take(i as int), b as int);
                    lemma_count_some_le_len(slots@.take(i as int));
                    assert(bins@[b as int] < usize::MAX);
                }
                let c = bins[b];
                bins.set(b, c + 1);
                proof {
                    lemma_sum_bins_update(bins0, b as int);
                    assert forall|bb: int| 0 <= bb < bin_count implies #[trigger] bins@[bb]
                        == count_bin(slots@.take(i + 1), bb) by {
                        if bb == b {
                        } else {
                            assert(bins@[bb] == bins0[bb]);
                        }
                    }
                }
            },
            None => {},
        }
        i += 1;
    }
    proof {
        assert(slots@.take(n as int) =~= slots@);
    }
    bins
}

/// A freshly zeroed bin row sums to zero.
proof fn lemma_zero_bins(bins: Seq<usize>)
    requires
        forall|b: int| 0 <= b < bins.len() ==> #[trigger] bins[b] == 0,
    ensures
        sum_bins(bins) == 0,
    decreases bins.len(),
{
    if bins.len() > 0 {
        lemma_zero_bins(bins.drop_last());
    }
}

/// No more values map into bins than there are values.
proof fn lemma_count_some_le_len(slots: Seq<Option<usize>>)
    ensures
        0 <= count_some(slots) <= slots.len(),
    decreases slots.len(),
{
    if slots.len() > 0 {
        lemma_count_some_le_len(slots.drop_last());
    }
}

/// The index of the `pct`-th percentile in a sorted sample, as the
/// quantile estimation uses it.
pub fn percentile_index(len: usize, pct: usize) -> (r: usize)
    requires
        1 <= len,
        pct <= 100,
        len - 1 <= usize::MAX / 100,
    ensures
        r == (len - 1) * pct / 100,
        r < len,
{
    let base = len - 1;
    proof {
        assert(base * pct <= base * 100) by (nonlinear_arith)
            requires
                pct <= 100,
                base >= 0,
        ;
        assert(base * 100 <= usize::MAX) by (nonlinear_arith)
            requires
                base <= usize::MAX / 100,
        ;
        assert(base * pct / 100 <= base) by (nonlinear_arith)
            requires
                pct <= 100,
                base >= 0,
        ;
    }
    let r = base * pct / 100;
    r
}

/// Relies on `rand::seq::index::sample`: draws `min(k, n)` distinct
/// indices below `n`, uniformly without replacement; which indices
/// come back is up to the generator, so nothing more is promised.
#[verifier::external_body]
pub fn sample_indices(n: usize, k: usize) -> (r: Vec<usize>)
    ensures
        r@.len() == if k < n {
            k as int
        } else {
            n as int
        },
        forall|i: int| 0 <= i < r@.len() ==> #[trigger] r@[i] < n,
        forall|i: int, j: int| 0 <= i < j < r@.len() ==> r@[i] != r@[j],
{
    let amount = if k < n {
        k
    } else {
        n
    };
    rand::seq::index::sample(&mut rand::thread_rng(), n, amount).into_vec()
}

/// Decides whether a computation starts out requested: small tensors
/// run at once, large ones wait for an explicit trigger.
pub fn initial_go(total_elements: u64, limit: u64) -> (r: bool)
    ensures
        r == (total_elements <= limit),
{
    total_elements <= limit
}

/// The state of one result slot of an analysis request.
#[derive(Debug, Clone, Copy, PartialEq, Eq, Structural)]
pub enum SlotState {
    /// The computation waits for an explicit trigger.
    NotRequested,
    /// The computation may start.
    Requested,
    /// The worker is computing.
    Computing,
    /// The result is stored; final.
    Completed,
    /// The error is stored; final.
    Failed,
}

/// What moves a slot forward.
#[derive(Debug, Clone, Copy, PartialEq, Eq, Structural)]
pub enum SlotEvent {
    /// The user asked for the computation.
    Trigger,
    /// The worker picked the request up.
    Begin,
    /// The computation succeeded.
    Finish,
    /// The computation failed or was cancelled.
    Fail,
}

/// The transition relation of one slot: triggering arms a waiting
/// slot, the worker moves an armed slot into computing, a computation
/// ends in completed or failed, and the two final states absorb every
/// event.
pub open spec fn slot_next(s: SlotState, ev: SlotEvent) -> SlotState {
    match (s, ev) {
        (SlotState::NotRequested, SlotEvent::Trigger) => SlotState::Requested,
        (SlotState::Requested, SlotEvent::Begin) => SlotState::Computing,
        (SlotState::Computing, SlotEvent::Finish) => SlotState::Completed,
        (SlotState::Computing, SlotEvent::Fail) => SlotState::Failed,
        _ => s,
    }
}

/// Advances a slot by one event.
pub fn slot_step(s: SlotState, ev: SlotEvent) -> (r: SlotState)
    ensures
        r == slot_next(s, ev),
{
    match (s, ev) {
        (SlotState::NotRequested, SlotEvent::Trigger) => SlotState::Requested,
        (SlotState::Requested, SlotEvent::Begin) => SlotState::Computing,
        (SlotState::Computing, SlotEvent::Finish) => SlotState::Completed,
        (SlotState::Computing, SlotEvent::Fail) => SlotState::Failed,
        (s, _) => s,
    }
}

/// No event leaves a completed or failed slot: the two final states
/// absorb everything, so a changed selection always makes a new
/// request instead of reusing an old one.
pub proof fn lemma_slot_final_absorbs(s: SlotState, ev: SlotEvent)
    requires
        s == SlotState::Completed || s == SlotState::Failed,
    ensures
        slot_next(s, ev) == s,
{
}

/// A result slot written at most once: the first stored value stays.
#[derive(Debug)]
pub struct WriteOnce<T> {
    value: Option<T>,
}

impl<T> WriteOnce<T> {
    /// The stored value, if any.
    pub closed spec fn view_slot(&self) -> Option<T> {
        self.value
    }

    /// An empty slot.
    pub fn new() -> (r: Self)
        ensures
            r.view_slot() is None,
    {
        WriteOnce { value: None }
    }

    /// Stores `v` if the slot is still empty; a full slot keeps its
    /// first value and reports the rejection.
    pub fn set(&mut self, v: T) -> (r: bool)
        ensures
            old(self).view_slot() is None ==> final(self).view_slot() == Some(v) && r,
            old(self).view_slot() is Some ==> final(self).view_slot() == old(self).view_slot()
                && !r,
    {
        if self.value.is_none() {
            self.value = Some(v);
            true
        } else {
            false
        }
    }

    /// Reads the slot.
    pub fn get(&self) -> (r: &Option<T>)
        ensures
            r == &self.view_slot(),
    {
        &self.value
    }
}

/// What the worker does after observing a request's liveness and its
/// go flag.
#[derive(Debug, Clone, Copy, PartialEq, Eq, Structural)]
pub enum WorkerAction {
    /// The request was dropped: abort with a cancellation error and
    /// write nothing.
    Abort,
    /// The computation is not requested yet: sleep and look again.
    Wait,
    /// Proceed with the computation.
    Proceed,
}

/// The worker's gate decision before an expensive pass: a dropped
/// request is never computed for and never written to; an unarmed one
/// is waited on; only a live, armed request proceeds.
pub fn worker_gate(alive: bool, go: bool) -> (r: WorkerAction)
    ensures
        !alive ==> r == WorkerAction::Abort,
        alive && !go ==> r == WorkerAction::Wait,
        alive && go ==> r == WorkerAction::Proceed,
{
    if !alive {
        WorkerAction::Abort
    } else if !go {
        WorkerAction::Wait
    } else {
        WorkerAction::Proceed
    }
}

} // verus!
