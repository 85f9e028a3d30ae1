//! The weight-reporting accumulation state machine.
//!
//! [`MinBatchWithWeight`] owns the buffer of not-yet-emitted items, the weight
//! accumulated so far and the fixed minimum batch weight. It is driven one
//! event at a time: [`MinBatchWithWeight::absorb`] for "the source produced an
//! item", [`MinBatchWithWeight::drain`] for "the source is exhausted". Each
//! emission is the whole buffer paired with its exact accumulated weight.

use crate::batching::{
    batches_from, items_of, lemma_sum_weights_nonneg, lemma_sum_weights_push, min_batches,
    sum_weights,
};
use vstd::prelude::*;

verus! {

/// Accumulator that regroups weighted items into batches of at least
/// `min_batch_weight` cumulative weight, reporting each batch's exact weight.
pub struct MinBatchWithWeight<T> {
    items: Vec<T>,
    current_batch_weight: usize,
    min_batch_weight: usize,
}

impl<T> MinBatchWithWeight<T> {
    /// The items currently buffered, in arrival order.
    pub closed spec fn buffer(self) -> Seq<T> {
        self.items@
    }

    /// The weight accumulated over the buffered items.
    pub closed spec fn weight(self) -> int {
        self.current_batch_weight as int
    }

    /// The minimum cumulative weight a batch must reach to be cut, fixed at
    /// construction.
    pub closed spec fn min_weight(self) -> int {
        self.min_batch_weight as int
    }

    /// Between events the accumulator is below the threshold: a met threshold
    /// always cuts a batch at once, and a cut resets the weight to zero. An
    /// empty buffer carries no weight.
    pub open spec fn wf(self) -> bool {
        &&& self.buffer().len() == 0 ==> self.weight() == 0
        &&& self.weight() == 0 || self.weight() < self.min_weight()
    }

    /// A fresh accumulator: nothing buffered, no weight accumulated.
    pub fn new(min_batch_weight: usize) -> (r: Self)
        ensures
            r.wf(),
            r.buffer() == Seq::<T>::empty(),
            r.weight() == 0,
            r.min_weight() == min_batch_weight as int,
    {
        MinBatchWithWeight {
            items: Vec::new(),
            current_batch_weight: 0,
            min_batch_weight,
        }
    }

    /// Absorb the next item produced by the source, with its weight.
    ///
    /// The item joins the buffer and its weight the accumulated weight. If
    /// the accumulated weight now meets the minimum, the whole buffer is
    /// emitted with that weight and the accumulator resets; otherwise nothing
    /// is emitted and the buffer is held.
    pub fn absorb(&mut self, item: T, item_weight: usize) -> (r: Option<(Vec<T>, usize)>)
        requires
            old(self).wf(),
            old(self).weight() + item_weight <= usize::MAX,
        ensures
            final(self).wf(),
            final(self).min_weight() == old(self).min_weight(),
            old(self).weight() + item_weight >= old(self).min_weight() ==> {
                &&& r matches Some(batch) && batch.0@ == old(self).buffer().push(item)
                    && batch.1 == old(self).weight() + item_weight
                &&& final(self).buffer() == Seq::<T>::empty()
                &&& final(self).weight() == 0
            },
            old(self).weight() + item_weight < old(self).min_weight() ==> {
                &&& r is None
                &&& final(self).buffer() == old(self).buffer().push(item)
                &&& final(self).weight() == old(self).weight() + item_weight
            },
    {
        let new_weight: usize = self.current_batch_weight + item_weight;
        self.items.push(item);
        self.current_batch_weight = new_weight;
        if new_weight >= self.min_batch_weight {
            self.current_batch_weight = 0;
            let mut batch: Vec<T> = Vec::new();
            core::mem::swap(&mut self.items, &mut batch);
            Some((batch, new_weight))
        } else {
            None
        }
    }

    /// Drain the accumulator once the source has signalled permanent
    /// exhaustion: a non-empty remainder is emitted exactly once as a final,
    /// possibly under-weight batch; an empty buffer yields nothing.
    pub fn drain(&mut self) -> (r: Option<(Vec<T>, usize)>)
        requires
            old(self).wf(),
        ensures
            final(self).wf(),
            final(self).min_weight() == old(self).min_weight(),
            final(self).buffer() == Seq::<T>::empty(),
            final(self).weight() == 0,
            old(self).buffer().len() == 0 ==> r is None,
            old(self).buffer().len() > 0 ==> {
                &&& r matches Some(batch) && batch.0@ == old(self).buffer()
                    && batch.1 == old(self).weight()
            },
    {
        if self.items.is_empty() {
            None
        } else {
            let batch_weight: usize = self.current_batch_weight;
            self.current_batch_weight = 0;
            let mut batch: Vec<T> = Vec::new();
            core::mem::swap(&mut self.items, &mut batch);
            Some((batch, batch_weight))
        }
    }

    /// Whether nothing is buffered. Together with an exhausted source this
    /// means the adapter is fully drained: no further output is possible.
    pub fn is_empty(&self) -> (r: bool)
        ensures
            r == (self.buffer().len() == 0),
    {
        self.items.is_empty()
    }

    /// The weight accumulated over the buffered items so far.
    pub fn current_weight(&self) -> (r: usize)
        ensures
            r as int == self.weight(),
    {
        self.current_batch_weight
    }
}

/// Batch an already-weighted finite sequence in one run: feed every pair to a
/// fresh accumulator in order, drain the remainder, and collect every emitted
/// batch with its reported weight. The result is exactly [`min_batches`] of
/// the input, each batch beside the sum of its items' weights.
pub fn collect_weighted_batches<T>(input: Vec<(T, usize)>, min_batch_weight: usize) -> (r: Vec<
    (Vec<T>, usize),
>)
    requires
        sum_weights(input@) <= usize::MAX,
    ensures
        ({
            let bs = min_batches(input@, min_batch_weight as int);
            &&& r@.len() == bs.len()
            &&& forall|j: int|
                0 <= j < bs.len() ==> (#[trigger] r@[j]).0@ == items_of(bs[j]) && r@[j].1
                    == sum_weights(bs[j])
        }),
{
    let ghost full = input@;
    let ghost min = min_batch_weight as int;
    let mut rest = input;
    let mut acc = MinBatchWithWeight::<T>::new(min_batch_weight);
    let mut out: Vec<(Vec<T>, usize)> = Vec::new();
    let ghost mut pending: Seq<(T, usize)> = Seq::empty();
    let ghost mut emitted: Seq<Seq<(T, usize)>> = Seq::empty();
    proof {
        assert(acc.buffer() =~= items_of(pending));
        assert(min_batches(full, min) =~= emitted + batches_from(rest@, min, pending));
    }
    while rest.len() > 0
        invariant
            min == min_batch_weight as int,
            acc.wf(),
            acc.min_weight() == min,
            acc.buffer() == items_of(pending),
            acc.weight() == sum_weights(pending),
            sum_weights(pending) + sum_weights(rest@) <= usize::MAX,
            min_batches(full, min) == emitted + batches_from(rest@, min, pending),
            out@.len() == emitted.len(),
            forall|j: int|
                0 <= j < emitted.len() ==> (#[trigger] out@[j]).0@ == items_of(emitted[j])
                    && out@[j].1 == sum_weights(emitted[j]),
        decreases rest.len(),
    {
        let ghost prev_rest = rest@;
        let ghost prev_pending = pending;
        let ghost grown = prev_pending.push(prev_rest[0]);
        let p = rest.remove(0);
        proof {
            assert(rest@ =~= prev_rest.drop_first());
            lemma_sum_weights_push(prev_pending, p);
            lemma_sum_weights_nonneg(rest@);
            assert(sum_weights(prev_rest) == p.1 + sum_weights(rest@));
            assert(items_of(grown) =~= items_of(prev_pending).push(p.0));
        }
        match acc.absorb(p.0, p.1) {
            Some(batch) => {
                proof {
                    pending = Seq::empty();
                    emitted = emitted.push(grown);
                    assert(acc.buffer() =~= items_of(pending));
                    assert(batches_from(prev_rest, min, prev_pending) =~= seq![grown]
                        + batches_from(rest@, min, pending));
                    assert(min_batches(full, min) =~= emitted + batches_from(rest@, min, pending));
                }
                out.push(batch);
            },
            None => {
                proof {
                    pending = grown;
                }
            },
        }
    }
    proof {
        assert(rest@ =~= Seq::<(T, usize)>::empty());
        assert(acc.buffer().len() == items_of(pending).len());
    }
    match acc.drain() {
        Some(batch) => {
            proof {
                assert(pending.len() > 0);
                emitted = emitted.push(pending);
                assert(min_batches(full, min) =~= emitted);
            }
            out.push(batch);
        },
        None => {
            proof {
                assert(pending.len() == 0);
                assert(min_batches(full, min) =~= emitted);
            }
        },
    }
    out
}

} // verus!
