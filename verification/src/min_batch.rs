//! The plain accumulation state machine: identical batching logic to the
//! weight-reporting variant, with each emission surfaced as the batch alone.

use crate::batching::{items_of, min_batches, sum_weights};
use crate::min_batch_with_weight::{collect_weighted_batches, MinBatchWithWeight};
use vstd::prelude::*;

verus! {

/// Accumulator that regroups weighted items into batches of at least
/// `min_batch_weight` cumulative weight.
pub struct MinBatch<T> {
    inner: MinBatchWithWeight<T>,
}

impl<T> MinBatch<T> {
    /// The items currently buffered, in arrival order.
    pub closed spec fn buffer(self) -> Seq<T> {
        self.inner.buffer()
    }

    /// The weight accumulated over the buffered items.
    pub closed spec fn weight(self) -> int {
        self.inner.weight()
    }

    /// The minimum cumulative weight a batch must reach to be cut.
    pub closed spec fn min_weight(self) -> int {
        self.inner.min_weight()
    }

    /// See [`MinBatchWithWeight::wf`].
    pub open spec fn wf(self) -> bool {
        &&& self.buffer().len() == 0 ==> self.weight() == 0
        &&& self.weight() == 0 || self.weight() < self.min_weight()
    }

    /// A fresh accumulator: nothing buffered, no weight accumulated.
    pub fn new(min_batch_weight: usize) -> (r: Self)
        ensures
            r.wf(),
            r.buffer() == Seq::<T>::empty(),
            r.weight() == 0,
            r.min_weight() == min_batch_weight as int,
    {
        MinBatch { inner: MinBatchWithWeight::new(min_batch_weight) }
    }

    /// Absorb the next item produced by the source, with its weight.
    ///
    /// The item joins the buffer and its weight the accumulated weight. If
    /// the accumulated weight now meets the minimum, the whole buffer is
    /// emitted and the accumulator resets; otherwise nothing is emitted and
    /// the buffer is held.
    pub fn absorb(&mut self, item: T, item_weight: usize) -> (r: Option<Vec<T>>)
        requires
            old(self).wf(),
            old(self).weight() + item_weight <= usize::MAX,
        ensures
            final(self).wf(),
            final(self).min_weight() == old(self).min_weight(),
            old(self).weight() + item_weight >= old(self).min_weight() ==> {
                &&& r matches Some(batch) && batch@ == old(self).buffer().push(item)
                &&& final(self).buffer() == Seq::<T>::empty()
                &&& final(self).weight() == 0
            },
            old(self).weight() + item_weight < old(self).min_weight() ==> {
                &&& r is None
                &&& final(self).buffer() == old(self).buffer().push(item)
                &&& final(self).weight() == old(self).weight() + item_weight
            },
    {
        match self.inner.absorb(item, item_weight) {
            Some(batch) => Some(batch.0),
            None => None,
        }
    }

    /// Drain the accumulator once the source has signalled permanent
    /// exhaustion: a non-empty remainder is emitted exactly once as a final,
    /// possibly under-weight batch; an empty buffer yields nothing.
    pub fn drain(&mut self) -> (r: Option<Vec<T>>)
        requires
            old(self).wf(),
        ensures
            final(self).wf(),
            final(self).min_weight() == old(self).min_weight(),
            final(self).buffer() == Seq::<T>::empty(),
            final(self).weight() == 0,
            old(self).buffer().len() == 0 ==> r is None,
            old(self).buffer().len() > 0 ==> (r matches Some(batch) && batch@ == old(
                self,
            ).buffer()),
    {
        match self.inner.drain() {
            Some(batch) => Some(batch.0),
            None => None,
        }
    }

    /// Whether nothing is buffered. Together with an exhausted source this
    /// means the adapter is fully drained: no further output is possible.
    pub fn is_empty(&self) -> (r: bool)
        ensures
            r == (self.buffer().len() == 0),
    {
        self.inner.is_empty()
    }

    /// The weight accumulated over the buffered items so far.
    pub fn current_weight(&self) -> (r: usize)
        ensures
            r as int == self.weight(),
    {
        self.inner.current_weight()
    }
}

/// Batch an already-weighted finite sequence in one run: feed every pair to a
/// fresh accumulator in order, drain the remainder, and collect every emitted
/// batch. The result is exactly [`min_batches`] of the input, weights
/// forgotten.
pub fn collect_batches<T>(input: Vec<(T, usize)>, min_batch_weight: usize) -> (r: Vec<Vec<T>>)
    requires
        sum_weights(input@) <= usize::MAX,
    ensures
        ({
            let bs = min_batches(input@, min_batch_weight as int);
            &&& r@.len() == bs.len()
            &&& forall|j: int| 0 <= j < bs.len() ==> (#[trigger] r@[j])@ == items_of(bs[j])
        }),
{
    let ghost bs = min_batches(input@, min_batch_weight as int);
    let mut weighted = collect_weighted_batches(input, min_batch_weight);
    let mut out: Vec<Vec<T>> = Vec::new();
    while weighted.len() > 0
        invariant
            out@.len() + weighted@.len() == bs.len(),
            forall|j: int| 0 <= j < out@.len() ==> (#[trigger] out@[j])@ == items_of(bs[j]),
            forall|j: int|
                0 <= j < weighted@.len() ==> (#[trigger] weighted@[j]).0@ == items_of(
                    bs[out@.len() + j],
                ),
        decreases weighted.len(),
    {
        let ghost prev = weighted@;
        let batch = weighted.remove(0);
        proof {
            assert(weighted@ =~= prev.drop_first());
        }
        out.push(batch.0);
    }
    out
}

} // verus!
