//! Mathematical model of a whole batching run.
//!
//! A run is described over a sequence of weighted items: pairs of an item and
//! its non-negative weight. [`min_batches`] folds such a sequence into the
//! sequence of batches that the accumulation state machine emits: items are
//! buffered in order, a batch is cut as soon as the buffered weight reaches
//! the minimum, and a non-empty remainder becomes one final batch.
//!
//! The laws proved here: concatenating the emitted batches gives back the
//! input exactly; batch weights add up to the input weights; every batch but
//! possibly the last meets the threshold; no batch is empty; an empty input
//! yields no batches; a first item at or above the threshold is emitted alone.

use vstd::prelude::*;

verus! {

/// Sum of the weights of a sequence of weighted items.
pub open spec fn sum_weights<T>(s: Seq<(T, usize)>) -> int
    decreases s.len(),
{
    if s.len() == 0 {
        0
    } else {
        s[0].1 + sum_weights(s.drop_first())
    }
}

/// The items of a sequence of weighted items, weights forgotten.
pub open spec fn items_of<T>(s: Seq<(T, usize)>) -> Seq<T> {
    s.map_values(|p: (T, usize)| p.0)
}

/// The batches emitted by a run that starts with `buf` already buffered and
/// then absorbs `input` item by item: a batch is cut whenever the buffered
/// weight reaches `min_weight`, and a non-empty remainder is drained at the
/// end as one final batch.
pub open spec fn batches_from<T>(
    input: Seq<(T, usize)>,
    min_weight: int,
    buf: Seq<(T, usize)>,
) -> Seq<Seq<(T, usize)>>
    decreases input.len(),
{
    if input.len() == 0 {
        if buf.len() == 0 {
            Seq::empty()
        } else {
            seq![buf]
        }
    } else {
        let grown = buf.push(input[0]);
        if sum_weights(grown) >= min_weight {
            seq![grown] + batches_from(input.drop_first(), min_weight, Seq::empty())
        } else {
            batches_from(input.drop_first(), min_weight, grown)
        }
    }
}

/// The batches emitted for `input` by a run that starts with an empty buffer.
pub open spec fn min_batches<T>(input: Seq<(T, usize)>, min_weight: int) -> Seq<
    Seq<(T, usize)>,
> {
    batches_from(input, min_weight, Seq::empty())
}

/// The concatenation, in order, of a sequence of batches.
pub open spec fn concat_batches<T>(bs: Seq<Seq<(T, usize)>>) -> Seq<(T, usize)>
    decreases bs.len(),
{
    if bs.len() == 0 {
        Seq::empty()
    } else {
        bs[0] + concat_batches(bs.drop_first())
    }
}

/// Sum of the total weights of a sequence of batches.
pub open spec fn sum_batch_weights<T>(bs: Seq<Seq<(T, usize)>>) -> int
    decreases bs.len(),
{
    if bs.len() == 0 {
        0
    } else {
        sum_weights(bs[0]) + sum_batch_weights(bs.drop_first())
    }
}

/// A weight sum is never negative.
pub proof fn lemma_sum_weights_nonneg<T>(s: Seq<(T, usize)>)
    ensures
        sum_weights(s) >= 0,
    decreases s.len(),
{
    if s.len() > 0 {
        lemma_sum_weights_nonneg(s.drop_first());
    }
}

/// Splitting a sum of weights at a concatenation splits the sum.
proof fn lemma_sum_weights_append<T>(a: Seq<(T, usize)>, b: Seq<(T, usize)>)
    ensures
        sum_weights(a + b) == sum_weights(a) + sum_weights(b),
    decreases a.len(),
{
    if a.len() == 0 {
        assert(a + b =~= b);
    } else {
        assert((a + b)[0] == a[0]);
        assert((a + b).drop_first() =~= a.drop_first() + b);
        lemma_sum_weights_append(a.drop_first(), b);
    }
}

/// Appending one weighted item adds exactly its weight to the sum.
pub proof fn lemma_sum_weights_push<T>(s: Seq<(T, usize)>, p: (T, usize))
    ensures
        sum_weights(s.push(p)) == sum_weights(s) + p.1,
    decreases s.len(),
{
    if s.len() == 0 {
        assert(s.push(p)[0] == p);
        assert(s.push(p).drop_first() =~= Seq::<(T, usize)>::empty());
        assert(sum_weights(s.push(p)) == p.1 + sum_weights(s.push(p).drop_first()));
    } else {
        assert(s.push(p)[0] == s[0]);
        assert(s.push(p).drop_first() =~= s.drop_first().push(p));
        lemma_sum_weights_push(s.drop_first(), p);
    }
}

proof fn lemma_batches_from_concat<T>(input: Seq<(T, usize)>, min_weight: int, buf: Seq<(T, usize)>)
    ensures
        concat_batches(batches_from(input, min_weight, buf)) == buf + input,
    decreases input.len(),
{
    if input.len() == 0 {
        if buf.len() == 0 {
            assert(concat_batches(batches_from(input, min_weight, buf)) =~= buf + input);
        } else {
            assert(seq![buf].drop_first() =~= Seq::<Seq<(T, usize)>>::empty());
            assert(seq![buf][0] == buf);
            assert(concat_batches(seq![buf]) == buf + concat_batches(
                Seq::<Seq<(T, usize)>>::empty(),
            ));
            assert(buf + Seq::<(T, usize)>::empty() =~= buf + input);
        }
    } else {
        let grown = buf.push(input[0]);
        if sum_weights(grown) >= min_weight {
            lemma_batches_from_concat(input.drop_first(), min_weight, Seq::empty());
            let bs = seq![grown] + batches_from(input.drop_first(), min_weight, Seq::empty());
            assert(bs[0] == grown);
            assert(bs.drop_first() =~= batches_from(input.drop_first(), min_weight, Seq::empty()));
            assert(Seq::<(T, usize)>::empty() + input.drop_first() =~= input.drop_first());
            assert(concat_batches(bs) =~= buf + input);
        } else {
            lemma_batches_from_concat(input.drop_first(), min_weight, grown);
            assert(grown + input.drop_first() =~= buf + input);
        }
    }
}

/// Conservation: concatenating, in order, the batches emitted for an input
/// gives back that input exactly — no item is lost, duplicated or reordered,
/// and every item keeps its weight.
pub proof fn lemma_conservation<T>(input: Seq<(T, usize)>, min_weight: int)
    ensures
        concat_batches(min_batches(input, min_weight)) == input,
{
    lemma_batches_from_concat(input, min_weight, Seq::empty());
    assert(Seq::<(T, usize)>::empty() + input =~= input);
}

proof fn lemma_concat_sum<T>(bs: Seq<Seq<(T, usize)>>)
    ensures
        sum_weights(concat_batches(bs)) == sum_batch_weights(bs),
    decreases bs.len(),
{
    if bs.len() > 0 {
        lemma_sum_weights_append(bs[0], concat_batches(bs.drop_first()));
        lemma_concat_sum(bs.drop_first());
    }
}

/// Weight conservation: the total weights of the emitted batches add up to
/// the sum of the weights of all input items.
pub proof fn lemma_weight_conservation<T>(input: Seq<(T, usize)>, min_weight: int)
    ensures
        sum_batch_weights(min_batches(input, min_weight)) == sum_weights(input),
{
    lemma_conservation(input, min_weight);
    lemma_concat_sum(min_batches(input, min_weight));
}

proof fn lemma_batches_from_threshold<T>(
    input: Seq<(T, usize)>,
    min_weight: int,
    buf: Seq<(T, usize)>,
)
    ensures
        forall|j: int|
            0 <= j < batches_from(input, min_weight, buf).len() - 1 ==> sum_weights(
                #[trigger] batches_from(input, min_weight, buf)[j],
            ) >= min_weight,
    decreases input.len(),
{
    let bs = batches_from(input, min_weight, buf);
    if input.len() == 0 {
    } else {
        let grown = buf.push(input[0]);
        if sum_weights(grown) >= min_weight {
            lemma_batches_from_threshold(input.drop_first(), min_weight, Seq::empty());
            let rest = batches_from(input.drop_first(), min_weight, Seq::empty());
            assert(bs == seq![grown] + rest);
            assert forall|j: int| 0 <= j < bs.len() - 1 implies sum_weights(#[trigger] bs[j])
                >= min_weight by {
                if j == 0 {
                    assert(bs[0] == grown);
                } else {
                    assert(bs[j] == rest[j - 1]);
                    assert(sum_weights(rest[j - 1]) >= min_weight);
                }
            }
        } else {
            lemma_batches_from_threshold(input.drop_first(), min_weight, grown);
            let rest = batches_from(input.drop_first(), min_weight, grown);
            assert(bs == rest);
            assert forall|j: int| 0 <= j < bs.len() - 1 implies sum_weights(#[trigger] bs[j])
                >= min_weight by {
                assert(bs[j] == rest[j]);
                assert(sum_weights(rest[j]) >= min_weight);
            }
        }
    }
}

/// Threshold: every emitted batch except possibly the last carries at least
/// the minimum weight. Only the final batch, drained at exhaustion, may be
/// under-weight.
pub proof fn lemma_threshold<T>(input: Seq<(T, usize)>, min_weight: int)
    ensures
        forall|j: int|
            0 <= j < min_batches(input, min_weight).len() - 1 ==> sum_weights(
                #[trigger] min_batches(input, min_weight)[j],
            ) >= min_weight,
{
    lemma_batches_from_threshold(input, min_weight, Seq::empty());
}

proof fn lemma_batches_from_non_empty<T>(
    input: Seq<(T, usize)>,
    min_weight: int,
    buf: Seq<(T, usize)>,
)
    ensures
        forall|j: int|
            0 <= j < batches_from(input, min_weight, buf).len() ==> (#[trigger] batches_from(
                input,
                min_weight,
                buf,
            )[j]).len() > 0,
    decreases input.len(),
{
    let bs = batches_from(input, min_weight, buf);
    if input.len() == 0 {
    } else {
        let grown = buf.push(input[0]);
        if sum_weights(grown) >= min_weight {
            lemma_batches_from_non_empty(input.drop_first(), min_weight, Seq::empty());
            let rest = batches_from(input.drop_first(), min_weight, Seq::empty());
            assert(bs == seq![grown] + rest);
            assert forall|j: int| 0 <= j < bs.len() implies (#[trigger] bs[j]).len() > 0 by {
                if j == 0 {
                    assert(bs[0] == grown);
                } else {
                    assert(bs[j] == rest[j - 1]);
                    assert(rest[j - 1].len() > 0);
                }
            }
        } else {
            lemma_batches_from_non_empty(input.drop_first(), min_weight, grown);
            let rest = batches_from(input.drop_first(), min_weight, grown);
            assert(bs == rest);
            assert forall|j: int| 0 <= j < bs.len() implies (#[trigger] bs[j]).len() > 0 by {
                assert(bs[j] == rest[j]);
                assert(rest[j].len() > 0);
            }
        }
    }
}

/// Non-emptiness: no emitted batch is ever empty.
pub proof fn lemma_non_emptiness<T>(input: Seq<(T, usize)>, min_weight: int)
    ensures
        forall|j: int|
            0 <= j < min_batches(input, min_weight).len() ==> (#[trigger] min_batches(
                input,
                min_weight,
            )[j]).len() > 0,
{
    lemma_batches_from_non_empty(input, min_weight, Seq::empty());
}

/// Singleton overflow: an item that arrives with nothing buffered and whose
/// own weight already meets the minimum is emitted alone, at once, as its own
/// batch; the run then continues on the remaining input as if started fresh.
pub proof fn lemma_singleton_overflow<T>(input: Seq<(T, usize)>, min_weight: int)
    requires
        input.len() > 0,
        input[0].1 >= min_weight,
    ensures
        min_batches(input, min_weight).len() > 0,
        min_batches(input, min_weight)[0] == seq![input[0]],
        min_batches(input, min_weight).drop_first() == min_batches(
            input.drop_first(),
            min_weight,
        ),
{
    let grown = Seq::<(T, usize)>::empty().push(input[0]);
    assert(grown =~= seq![input[0]]);
    lemma_sum_weights_push(Seq::<(T, usize)>::empty(), input[0]);
    let bs = seq![grown] + min_batches(input.drop_first(), min_weight);
    assert(min_batches(input, min_weight) == bs);
    assert(bs[0] == grown);
    assert(bs.drop_first() =~= min_batches(input.drop_first(), min_weight));
}

/// Empty input: an empty input sequence produces no batches at all.
pub proof fn lemma_empty_input<T>(min_weight: int)
    ensures
        min_batches(Seq::<(T, usize)>::empty(), min_weight) == Seq::<Seq<(T, usize)>>::empty(),
{
}

} // verus!
