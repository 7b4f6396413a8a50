//! Targets, epochs and the networks' rules.

use bitcoin::consensus::deserialize;
use bitcoin::hashes::hex::FromHex;

use chainstate::best_chain::BestChain;
use chainstate::chain_state::ChainState;
use chainstate::error::StoreError;
use chainstate::hash::{BlockHash, Hash256};
use chainstate::params::{ChainParams, Network};
use chainstate::pow::{allows_min_work, is_epoch_start, new_epoch_target};
use chainstate::primitives::BlockHeader;
use chainstate::store::{ChainStore, DiskBlockHeader};
use chainstate::uint::Uint256;

struct NoStore;

impl ChainStore for NoStore {
    fn save_roots(&self, _roots: Vec<u8>) -> Result<(), StoreError> {
        Ok(())
    }

    fn load_roots(&self) -> Result<Option<Vec<u8>>, StoreError> {
        Ok(None)
    }

    fn get_header(&self, _block_hash: &BlockHash) -> Result<Option<DiskBlockHeader>, StoreError> {
        Ok(None)
    }

    fn save_header(&self, _header: &DiskBlockHeader, _height: u32) -> Result<(), StoreError> {
        Ok(())
    }

    fn get_block_hash(&self, _height: u32) -> Result<Option<BlockHash>, StoreError> {
        Ok(None)
    }

    fn save_height(&self, _height: &BestChain) -> Result<(), StoreError> {
        Ok(())
    }

    fn load_height(&self) -> Result<Option<BestChain>, StoreError> {
        Ok(None)
    }

    fn flush(&self) -> Result<(), StoreError> {
        Ok(())
    }
}

fn parse_header(hex: &str) -> BlockHeader {
    let bytes = Vec::from_hex(hex).unwrap();
    let header: bitcoin::BlockHeader = deserialize(&bytes).unwrap();
    BlockHeader {
        version: header.version,
        prev_blockhash: Hash256(bitcoin::hashes::Hash::into_inner(header.prev_blockhash)),
        merkle_root: Hash256(bitcoin::hashes::Hash::into_inner(header.merkle_root)),
        time: header.time,
        bits: header.bits,
        nonce: header.nonce,
    }
}

fn header_at_time(time: u32, bits: u32) -> BlockHeader {
    BlockHeader {
        version: 1,
        prev_blockhash: Hash256([0; 32]),
        merkle_root: Hash256([0; 32]),
        time,
        bits,
        nonce: 0,
    }
}

const FIRST: &str = "0100000000000000000000000000000000000000000000000000000000000000000000003ba3edfd7a7b12b27ac72c3e67768f617fc81bc3888a51323a9fb8aa4b1e5e4a008f4d5fae77031e8ad22203";
const LAST: &str = "00000020dec6741f7dc5df6661bcb2d3ec2fceb14bd0e6def3db80da904ed1eeb8000000d1f308132e6a72852c04b059e92928ea891ae6d513cd3e67436f908c804ec7be51df535fae77031e4d00f800";

#[test]
fn test_calc_next_work_required() {
    let first_block = parse_header(FIRST);
    let last_block = parse_header(LAST);

    let next_target = ChainState::<NoStore>::calc_next_work_required(
        &last_block,
        &first_block,
        ChainParams::from(Network::Bitcoin),
    );

    assert_eq!(0x1e012fa7, next_target);
}

#[test]
fn an_epoch_on_time_keeps_its_bits() {
    let params = ChainParams::from(Network::Bitcoin);
    let first = header_at_time(1_000_000, 0x1c05_a3f4);
    let last = header_at_time(1_000_000 + 1_209_600, 0x1c05_a3f4);
    assert_eq!(ChainState::<NoStore>::calc_next_work_required(&last, &first, params), 0x1c05_a3f4);
}

#[test]
fn an_epoch_in_half_the_time_halves_the_target() {
    let params = ChainParams::from(Network::Bitcoin);
    let first = header_at_time(0, 0x1c10_0000);
    let last = header_at_time(604_800, 0x1c10_0000);
    assert_eq!(ChainState::<NoStore>::calc_next_work_required(&last, &first, params), 0x1c08_0000);
}

#[test]
fn an_epoch_in_no_time_has_the_target_zero() {
    let params = ChainParams::from(Network::Bitcoin);
    let block = header_at_time(77, 0x1c10_0000);
    assert_eq!(ChainState::<NoStore>::calc_next_work_required(&block, &block, params), 0);
}

#[test]
fn a_small_first_digit_is_written_without_a_sign() {
    let params = ChainParams::from(Network::Bitcoin);
    let first = header_at_time(0, 0x1c00_8000);
    let last = header_at_time(1_209_600, 0x1c00_8000);
    assert_eq!(ChainState::<NoStore>::calc_next_work_required(&last, &first, params), 0x1c00_8000);
}

#[test]
fn a_slower_epoch_is_no_harder() {
    let params = ChainParams::from(Network::Signet);
    let first = header_at_time(0, 0x1e03_77ae);
    let mut before = new_epoch_target(&params, &first, &first);
    for days in 1..40u32 {
        let last = header_at_time(days * 86_400, 0x1e03_77ae);
        let target = new_epoch_target(&params, &last, &first);
        assert!(!before.exceeds(&target));
        before = target;
    }
    assert!(before.exceeds(&params.max_target));
}

#[test]
fn a_compact_form_drops_the_last_bytes() {
    let params = ChainParams::from(Network::Bitcoin);
    let first = header_at_time(0, 0x0412_3456);
    let last = header_at_time(1_209_601, 0x0412_3456);
    // The scaled target is 0x123456fc, of which the last byte is dropped.
    assert_eq!(ChainState::<NoStore>::calc_next_work_required(&last, &first, params), 0x0412_3456);
}

#[test]
fn targets_of_compact_forms() {
    assert_eq!(header_at_time(0, 0x1d00_ffff).target().0, [0, 0, 0, 0x0000_0000_ffff_0000]);
    assert_eq!(header_at_time(0, 0x0312_3456).target().0, [0x12_3456, 0, 0, 0]);
    assert_eq!(header_at_time(0, 0x0212_3456).target().0, [0x1234, 0, 0, 0]);
    assert_eq!(header_at_time(0, 0x0480_0000).target().0, [0, 0, 0, 0]);
}

#[test]
fn rules_of_the_networks() {
    let bitcoin = ChainParams::from(Network::Bitcoin);
    assert_eq!(bitcoin.max_target.0, [0, 0, 0, 0x0000_0000_ffff_0000]);
    assert_eq!(bitcoin.pow_target_timespan, 1_209_600);
    assert!(!bitcoin.pow_allow_min_diff && !bitcoin.pow_allow_no_retarget);
    let testnet = ChainParams::from(Network::Testnet);
    assert_eq!(testnet.max_target.0, [0, 0, 0, 0x0000_0000_ffff_0000]);
    assert!(testnet.pow_allow_min_diff && !testnet.pow_allow_no_retarget);
    let signet = ChainParams::from(Network::Signet);
    assert_eq!(signet.max_target.0, [0, 0, 0, 0x0000_0377_ae00_0000]);
    assert!(!signet.pow_allow_min_diff && !signet.pow_allow_no_retarget);
    let regtest = ChainParams::from(Network::Regtest);
    assert_eq!(regtest.max_target.0, [0, 0, 0, 0x7fff_ff00_0000_0000]);
    assert!(regtest.pow_allow_min_diff && regtest.pow_allow_no_retarget);
}

#[test]
fn the_least_work_is_enough_after_twenty_minutes() {
    let testnet = ChainParams::from(Network::Testnet);
    let last = header_at_time(10_000, 0x1c10_0000);
    assert!(!allows_min_work(&testnet, &last, 10_000));
    assert!(!allows_min_work(&testnet, &last, 11_200));
    assert!(allows_min_work(&testnet, &last, 11_201));
    assert!(allows_min_work(&testnet, &last, u64::MAX));
    let bitcoin = ChainParams::from(Network::Bitcoin);
    assert!(!allows_min_work(&bitcoin, &last, 11_201));
}

#[test]
fn epochs_start_every_2016_blocks_but_on_regtest() {
    let bitcoin = ChainParams::from(Network::Bitcoin);
    assert!(is_epoch_start(&bitcoin, 0));
    assert!(!is_epoch_start(&bitcoin, 2015));
    assert!(is_epoch_start(&bitcoin, 2016));
    assert!(is_epoch_start(&bitcoin, 4032));
    let regtest = ChainParams::from(Network::Regtest);
    assert!(!is_epoch_start(&regtest, 2016));
}

#[test]
fn a_new_epoch_takes_the_larger_target() {
    let params = ChainParams::from(Network::Bitcoin);
    let asked = new_epoch_target(&params, &parse_header(LAST), &parse_header(FIRST));
    assert_eq!(asked.0, header_at_time(0, 0x1e01_2fa7).target().0);
    assert!(asked.exceeds(&params.max_target));
    let first = header_at_time(0, 0x1c10_0000);
    let last = header_at_time(604_800, 0x1c10_0000);
    let capped = new_epoch_target(&params, &last, &first);
    assert_eq!(capped.0, params.max_target.0);
}

#[test]
fn numbers_compare_from_the_highest_limb() {
    assert!(Uint256([0, 0, 0, 2]).exceeds(&Uint256([9, 9, 9, 1])));
    assert!(Uint256([0, 0, 3, 1]).exceeds(&Uint256([9, 9, 2, 1])));
    assert!(Uint256([0, 4, 3, 1]).exceeds(&Uint256([9, 3, 3, 1])));
    assert!(Uint256([5, 4, 3, 1]).exceeds(&Uint256([4, 4, 3, 1])));
    assert!(!Uint256([5, 4, 3, 1]).exceeds(&Uint256([5, 4, 3, 1])));
    assert_eq!(Uint256::from_u64(17).0, [17, 0, 0, 0]);
}
