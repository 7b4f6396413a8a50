//! Bytes of chains and accumulators, and the heights of locators.

use chainstate::accumulator::Stump;
use chainstate::best_chain::BestChain;
use chainstate::chain_state::{acc_from_reply, fee_estimate_index};
use chainstate::encoding::DecodeError;
use chainstate::error::{Fault, StoreError};
use chainstate::hash::Hash256;
use chainstate::locator::locator_heights;

fn hash(fill: u8) -> Hash256 {
    Hash256([fill; 32])
}

fn chain(rescan_index: Option<Hash256>, alternative_tips: Vec<Hash256>) -> BestChain {
    BestChain {
        best_block: hash(1),
        depth: 0x0403_0201,
        validation_index: hash(2),
        rescan_index,
        alternative_tips,
    }
}

fn encode(chain: &BestChain) -> Vec<u8> {
    let mut bytes: Vec<u8> = Vec::new();
    let length = chain.consensus_encode(&mut bytes);
    assert_eq!(length, bytes.len());
    bytes
}

#[test]
fn the_bytes_of_a_chain() {
    let bytes = encode(&chain(None, vec![hash(7), hash(8)]));
    assert_eq!(bytes.len(), 165);
    assert_eq!(bytes[0..32], [1u8; 32]);
    assert_eq!(bytes[32..36], [1, 2, 3, 4]);
    assert_eq!(bytes[36..68], [2u8; 32]);
    assert_eq!(bytes[68..100], [0u8; 32]);
    assert_eq!(bytes[100], 2);
    assert_eq!(bytes[101..133], [7u8; 32]);
    assert_eq!(bytes[133..165], [8u8; 32]);
}

#[test]
fn encoding_appends() {
    let mut bytes: Vec<u8> = vec![9];
    assert_eq!(chain(None, vec![]).consensus_encode(&mut bytes), 101);
    assert_eq!(bytes.len(), 102);
    assert_eq!(bytes[0], 9);
}

#[test]
fn a_chain_reads_back() {
    let mut bytes = encode(&chain(Some(hash(5)), vec![hash(7), hash(8)]));
    bytes.push(0xee);
    let (read, used) = BestChain::consensus_decode(&bytes).unwrap();
    assert_eq!(used, 165);
    assert_eq!(read.best_block, hash(1));
    assert_eq!(read.depth, 0x0403_0201);
    assert_eq!(read.validation_index, hash(2));
    assert_eq!(read.rescan_index, Some(hash(5)));
    assert_eq!(read.alternative_tips, vec![hash(7), hash(8)]);
}

#[test]
fn many_tips_read_back() {
    let tips: Vec<Hash256> = (0..300u32).map(|i| hash((i % 251) as u8)).collect();
    let bytes = encode(&chain(None, tips.clone()));
    assert_eq!(bytes[100..103], [0xfd, 0x2c, 0x01]);
    let (read, used) = BestChain::consensus_decode(&bytes).unwrap();
    assert_eq!(used, bytes.len());
    assert_eq!(read.rescan_index, None);
    assert_eq!(read.alternative_tips, tips);
}

#[test]
fn a_scan_at_the_zero_hash_reads_back_as_no_scan() {
    let bytes = encode(&chain(Some(hash(0)), vec![]));
    let (read, _) = BestChain::consensus_decode(&bytes).unwrap();
    assert_eq!(read.rescan_index, None);
}

#[test]
fn bytes_that_stop_short() {
    let bytes = encode(&chain(None, vec![hash(7)]));
    for length in [0usize, 31, 99, 100, 101, 132] {
        let error = BestChain::consensus_decode(&bytes[0..length]).unwrap_err();
        assert_eq!(error, DecodeError::UnexpectedEnd);
    }
    assert!(BestChain::consensus_decode(&bytes[0..133]).is_ok());
}

#[test]
fn a_length_in_too_many_bytes() {
    let mut bytes = encode(&chain(None, vec![]));
    bytes.pop();
    bytes.extend([0xfd, 0x01, 0x00]);
    bytes.extend([7u8; 32]);
    let error = BestChain::consensus_decode(&bytes).unwrap_err();
    assert_eq!(error, DecodeError::NonMinimalVarInt);
}

#[test]
fn a_list_of_tips_past_the_limit() {
    let fits: Vec<Hash256> = vec![hash(3); 124_999];
    assert!(BestChain::consensus_decode(&encode(&chain(None, fits))).is_ok());
    let too_long: Vec<Hash256> = vec![hash(3); 125_000];
    let error = BestChain::consensus_decode(&encode(&chain(None, too_long))).unwrap_err();
    assert_eq!(error, DecodeError::UnexpectedEnd);
}

#[test]
fn new_and_valid_blocks() {
    let mut best = chain(None, vec![]);
    best.new_block(hash(9), 5);
    assert_eq!((best.best_block, best.depth, best.validation_index), (hash(9), 5, hash(2)));
    best.valid_block(hash(9));
    assert_eq!(best.validation_index, hash(9));
}

#[test]
fn the_bytes_of_an_accumulator() {
    let acc = Stump { leafs: 0x0102, roots: vec![hash(4), hash(6)] };
    let bytes = acc.serialize();
    assert_eq!(bytes.len(), 72);
    assert_eq!(bytes[0..8], [2, 1, 0, 0, 0, 0, 0, 0]);
    assert_eq!(bytes[8..40], [4u8; 32]);
    assert_eq!(bytes[40..72], [6u8; 32]);
}

#[test]
fn a_saved_accumulator_loads() {
    let acc = Stump { leafs: u64::MAX, roots: vec![hash(4), hash(0), hash(6)] };
    let loaded = acc_from_reply(Ok(Some(acc.serialize()))).unwrap();
    assert_eq!(loaded.leafs, u64::MAX);
    assert_eq!(loaded.roots, vec![hash(4), hash(0), hash(6)]);
}

#[test]
fn no_accumulator_loads_as_the_empty_one() {
    let loaded = acc_from_reply(Ok(None)).unwrap();
    assert_eq!(loaded.leafs, 0);
    assert_eq!(loaded.roots, vec![]);
}

#[test]
fn accumulators_that_do_not_load() {
    let failed = acc_from_reply(Err(StoreError(String::from("gone")))).unwrap_err();
    assert_eq!(failed, Fault::RootsUnreadable);
    let short = acc_from_reply(Ok(Some(vec![0; 7]))).unwrap_err();
    assert_eq!(short, Fault::RootsMalformed);
    let ragged = acc_from_reply(Ok(Some(vec![0; 41]))).unwrap_err();
    assert_eq!(ragged, Fault::RootsMalformed);
}

#[test]
fn less_than_a_root_is_left_over() {
    let loaded = acc_from_reply(Ok(Some(vec![3; 39]))).unwrap();
    assert_eq!(loaded.leafs, 0x0303_0303_0303_0303);
    assert_eq!(loaded.roots, vec![]);
}

#[test]
fn heights_of_locators() {
    assert_eq!(locator_heights(0), vec![0]);
    assert_eq!(locator_heights(1), vec![1, 0]);
    assert_eq!(locator_heights(5), vec![5, 4, 3, 2, 1, 0]);
    assert_eq!(locator_heights(11), vec![11, 10, 9, 8, 7, 6, 5, 4, 3, 2, 1, 0]);
    assert_eq!(
        locator_heights(30),
        vec![30, 29, 28, 27, 26, 25, 24, 23, 22, 21, 20, 18, 14, 6, 0]
    );
}

#[test]
fn the_longest_locator_goes_down() {
    let heights = locator_heights(u32::MAX);
    assert_eq!(heights.len(), 42);
    assert_eq!(heights[0], u32::MAX);
    assert_eq!(heights[heights.len() - 1], 0);
    assert!(heights.windows(2).all(|pair| pair[0] > pair[1]));
    assert_eq!(heights[10] - heights[11], 2);
    assert_eq!(heights[11] - heights[12], 4);
}

#[test]
fn fee_estimates_for_one_ten_and_twenty_blocks() {
    assert_eq!(fee_estimate_index(1), 0);
    assert_eq!(fee_estimate_index(10), 1);
    assert_eq!(fee_estimate_index(20), 2);
    assert_eq!(fee_estimate_index(0), 2);
}
