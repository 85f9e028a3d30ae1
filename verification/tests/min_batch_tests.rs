use min_batch::min_batch::collect_batches;
use min_batch::min_batch::MinBatch;
use min_batch::min_batch_with_weight::collect_weighted_batches;
use min_batch::min_batch_with_weight::MinBatchWithWeight;
use std::collections::VecDeque;

#[derive(Debug, PartialEq, Eq)]
struct BlockOfTxs {
    name: char,
    txs_count: usize,
}

#[test]
fn test_batch_stream_of_vectors() {
    let mut queue: VecDeque<char> = ('a'..='z').collect();

    let input: Vec<(Vec<char>, usize)> = (1..=5)
        .map(|x| {
            let group: Vec<char> = (0..x).map(|_| queue.pop_front().unwrap()).collect();
            let weight = group.len();
            (group, weight)
        })
        .collect();
    let batches: Vec<Vec<Vec<char>>> = collect_batches(input, 3);

    // Verify the batches
    assert_eq!(batches.len(), 4);
    assert_eq!(batches[0], vec![vec!['a'], vec!['b', 'c']]); // collect first vector elements until the total count is >= 3
    assert_eq!(batches[1], vec![vec!['d', 'e', 'f']]); // the third vector has already 3 elements so lets move to the next one
    assert_eq!(batches[2], vec![vec!['g', 'h', 'i', 'j']]);
}

#[test]
fn test_min_size_of_vectors() {
    let input: Vec<(Vec<char>, usize)> = (1..=10_005)
        .map(|_| {
            let group: Vec<char> = (0..10).map(|_| 'a').collect();
            let weight = group.len();
            (group, weight)
        })
        .collect();
    let batches: Vec<Vec<Vec<char>>> = collect_batches(input, 100_000);

    // Verify the batches
    assert!(
        batches.len() == 2,
        "Expected batches length should not be {}",
        batches.len()
    );
    assert!(
        batches[0].len() == 10_000,
        "Expected batch length should not be {}",
        batches[0].len()
    );
    assert!(
        batches[1].len() == 5,
        "Expected batch length should not be {}",
        batches[1].len()
    );
}

#[test]
fn test_batch_stream_short() {
    let mut queue: VecDeque<char> = ('a'..='z').collect();

    let input: Vec<(Vec<char>, usize)> = std::iter::once(1)
        .map(|x| {
            let group: Vec<char> = (0..x).map(|_| queue.pop_front().unwrap()).collect();
            let weight = group.len();
            (group, weight)
        })
        .collect();
    let batches: Vec<Vec<Vec<char>>> = collect_batches(input, 3);

    // Verify the batches
    assert_eq!(batches.len(), 1);
    assert_eq!(batches[0], vec![vec!['a']]);
}

fn blocks_of_txs() -> Vec<(BlockOfTxs, usize)> {
    let mut queue: VecDeque<char> = ('a'..='z').collect();
    (1..=7)
        .map(|x: usize| {
            let block = BlockOfTxs {
                name: queue.pop_front().unwrap(),
                txs_count: if x >= 4 { 1 } else { x },
            };
            let weight = block.txs_count;
            (block, weight)
        })
        .collect()
}

#[test]
fn test_batch_stream_of_blocks() {
    let batches: Vec<Vec<BlockOfTxs>> = collect_batches(blocks_of_txs(), 3);

    // Verify the batches
    assert_eq!(batches.len(), 4);
    // collect first Blocks of Transactions until the total count of transactions is >= 3
    assert_eq!(
        batches[0],
        vec![
            BlockOfTxs {
                name: 'a',
                txs_count: 1
            },
            BlockOfTxs {
                name: 'b',
                txs_count: 2
            }
        ],
    );
    // the third Block has already 3 transactions so lets move to the next one
    assert_eq!(
        batches[1],
        vec![BlockOfTxs {
            name: 'c',
            txs_count: 3
        }],
    );
    // collect 3 more blocks with a single transaction
    assert_eq!(
        batches[2],
        vec![
            BlockOfTxs {
                name: 'd',
                txs_count: 1
            },
            BlockOfTxs {
                name: 'e',
                txs_count: 1
            },
            BlockOfTxs {
                name: 'f',
                txs_count: 1
            }
        ],
    );
    // and so on
    assert_eq!(
        batches[3],
        vec![BlockOfTxs {
            name: 'g',
            txs_count: 1
        }],
    );
}

#[test]
fn test_batch_stream_of_blocks_with_size() {
    let batches: Vec<(Vec<BlockOfTxs>, usize)> = collect_weighted_batches(blocks_of_txs(), 3);

    // Verify the batches
    assert_eq!(batches.len(), 4);
    // collect first Blocks of Transactions until the total count of transactions is >= 3
    assert_eq!(
        batches[0],
        (
            vec![
                BlockOfTxs {
                    name: 'a',
                    txs_count: 1
                },
                BlockOfTxs {
                    name: 'b',
                    txs_count: 2
                }
            ],
            3
        )
    );
    // the third Block has already 3 transactions so lets move to the next one
    assert_eq!(
        batches[1],
        (
            vec![BlockOfTxs {
                name: 'c',
                txs_count: 3
            }],
            3
        )
    );
    // collect 3 more blocks with a single transaction
    assert_eq!(
        batches[2],
        (
            vec![
                BlockOfTxs {
                    name: 'd',
                    txs_count: 1
                },
                BlockOfTxs {
                    name: 'e',
                    txs_count: 1
                },
                BlockOfTxs {
                    name: 'f',
                    txs_count: 1
                }
            ],
            3
        )
    );
    // and so on
    assert_eq!(
        batches[3],
        (
            vec![BlockOfTxs {
                name: 'g',
                txs_count: 1
            }],
            1
        )
    );
}

#[test]
fn test_empty_input_produces_no_batches() {
    let batches: Vec<Vec<char>> = collect_batches(Vec::new(), 3);
    assert_eq!(batches.len(), 0);
    let weighted: Vec<(Vec<char>, usize)> = collect_weighted_batches(Vec::new(), 3);
    assert_eq!(weighted.len(), 0);
}

#[test]
fn test_weight_threshold_scenario() {
    // weights 1, 2, 3, 4 with a minimum of 3: batches of total weight 3, 3, 4
    let input: Vec<(u32, usize)> = vec![(10, 1), (20, 2), (30, 3), (40, 4)];
    let batches = collect_weighted_batches(input, 3);
    assert_eq!(
        batches,
        vec![(vec![10, 20], 3), (vec![30], 3), (vec![40], 4)]
    );
}

#[test]
fn test_singleton_overflow_emitted_alone() {
    // an item whose own weight meets the minimum leaves as its own batch,
    // never merged with the items that follow
    let input: Vec<(char, usize)> = vec![('a', 5), ('b', 1)];
    let batches = collect_weighted_batches(input, 3);
    assert_eq!(batches, vec![(vec!['a'], 5), (vec!['b'], 1)]);
}

#[test]
fn test_conservation_of_items_and_weights() {
    let input: Vec<(char, usize)> = vec![('a', 2), ('b', 0), ('c', 7), ('d', 1), ('e', 1)];
    let total: usize = input.iter().map(|p| p.1).sum();
    let batches = collect_weighted_batches(input.clone(), 4);

    let rejoined: Vec<char> = batches.iter().flat_map(|b| b.0.iter().copied()).collect();
    let fed_in: Vec<char> = input.iter().map(|p| p.0).collect();
    assert_eq!(rejoined, fed_in);

    let reported: usize = batches.iter().map(|b| b.1).sum();
    assert_eq!(reported, total);
}

#[test]
fn test_no_batch_is_empty_and_threshold_holds() {
    let input: Vec<(u8, usize)> = vec![(1, 1), (2, 1), (3, 4), (4, 0), (5, 2), (6, 1)];
    let batches = collect_weighted_batches(input, 3);
    assert!(!batches.is_empty());
    for b in &batches {
        assert!(!b.0.is_empty());
    }
    for b in &batches[..batches.len() - 1] {
        assert!(b.1 >= 3);
    }
}

#[test]
fn test_weight_reporting_accuracy() {
    // each item carries its own weight, so each batch's reported weight can
    // be recomputed from the emitted items, final partial batch included
    let input: Vec<((u32, usize), usize)> = vec![
        ((1, 2), 2),
        ((2, 2), 2),
        ((3, 5), 5),
        ((4, 1), 1),
    ];
    let batches = collect_weighted_batches(input, 4);
    assert_eq!(batches.len(), 3);
    for b in &batches {
        let recomputed: usize = b.0.iter().map(|item| item.1).sum();
        assert_eq!(b.1, recomputed);
    }
    // the final batch is under-weight, emitted only by exhaustion
    assert!(batches[2].1 < 4);
}

#[test]
fn test_zero_weight_items_accumulate_until_exhaustion() {
    let input: Vec<(char, usize)> = vec![('a', 0), ('b', 0), ('c', 0)];
    let batches = collect_weighted_batches(input, 5);
    assert_eq!(batches, vec![(vec!['a', 'b', 'c'], 0)]);
}

#[test]
fn test_zero_min_weight_emits_singletons() {
    let input: Vec<(char, usize)> = vec![('a', 0), ('b', 1)];
    let batches = collect_batches(input, 0);
    assert_eq!(batches, vec![vec!['a'], vec!['b']]);
}

#[test]
fn test_absorb_cuts_batch_at_threshold() {
    let mut acc: MinBatchWithWeight<char> = MinBatchWithWeight::new(3);
    assert!(acc.is_empty());
    assert_eq!(acc.absorb('a', 1), None);
    assert!(!acc.is_empty());
    assert_eq!(acc.current_weight(), 1);
    assert_eq!(acc.absorb('b', 2), Some((vec!['a', 'b'], 3)));
    assert!(acc.is_empty());
    assert_eq!(acc.current_weight(), 0);
    assert_eq!(acc.drain(), None);
}

#[test]
fn test_drain_emits_remainder_once() {
    let mut acc: MinBatch<char> = MinBatch::new(3);
    assert_eq!(acc.absorb('a', 1), None);
    assert_eq!(acc.drain(), Some(vec!['a']));
    assert!(acc.is_empty());
    assert_eq!(acc.drain(), None);
}
