//! The networks and the rules of their chains.

use vstd::prelude::*;

use bitcoin::blockdata::constants::genesis_block;
use bitcoin::hashes;

use crate::encoding::pow256;
use crate::hash::Hash256;
use crate::primitives::BlockHeader;
use crate::uint::{compact_value, limb_base, Uint256};

verus! {

/// A Bitcoin network.
#[derive(Clone, Copy, Debug, PartialEq, Eq, Structural)]
pub enum Network {
    Bitcoin,
    Testnet,
    Signet,
    Regtest,
}

/// The rules on proof of work that differ between networks.
#[derive(Clone, Copy, Debug)]
pub struct ChainParams {
    /// The largest target, which is the least work that a block may have.
    pub max_target: Uint256,
    /// How many seconds an epoch should take.
    pub pow_target_timespan: u64,
    /// Whether blocks with the least work are allowed.
    pub pow_allow_min_diff: bool,
    /// Whether the target never changes between epochs.
    pub pow_allow_no_retarget: bool,
}

/// The highest 64 bits of the largest target of a network. The other bits are zero.
pub open spec fn max_target_limb(network: Network) -> u64 {
    match network {
        Network::Bitcoin => 0x0000_0000_ffff_0000,
        Network::Testnet => 0x0000_0000_ffff_0000,
        Network::Signet => 0x0000_0377_ae00_0000,
        Network::Regtest => 0x7fff_ff00_0000_0000,
    }
}

/// `params` are the rules of `network`.
pub open spec fn are_params_of(params: ChainParams, network: Network) -> bool {
    &&& params.max_target.0@ == seq![0u64, 0, 0, max_target_limb(network)]
    &&& params.pow_target_timespan == 1_209_600
    &&& params.pow_allow_min_diff == (network is Testnet || network is Regtest)
    &&& params.pow_allow_no_retarget == (network is Regtest)
}

/// `bitcoin::consensus::Params::new`: the rules of a network. An epoch takes two weeks on each,
/// the test networks but signet allow blocks with the least work, and regtest never changes its
/// target.
#[verifier::external_body]
fn consensus_params(network: Network) -> (params: ChainParams)
    ensures
        are_params_of(params, network),
{
    let params = bitcoin::consensus::Params::new(match network {
        Network::Bitcoin => bitcoin::Network::Bitcoin,
        Network::Testnet => bitcoin::Network::Testnet,
        Network::Signet => bitcoin::Network::Signet,
        Network::Regtest => bitcoin::Network::Regtest,
    });
    ChainParams {
        max_target: Uint256(params.pow_limit.0),
        pow_target_timespan: params.pow_target_timespan,
        pow_allow_min_diff: params.allow_min_difficulty_blocks,
        pow_allow_no_retarget: params.no_pow_retargeting,
    }
}

/// The rules of `network`.
pub open spec fn params_of(network: Network) -> ChainParams {
    choose|params: ChainParams| are_params_of(params, network)
}

impl From<Network> for ChainParams {
    fn from(network: Network) -> (params: ChainParams)
        ensures
            are_params_of(params, network),
    {
        let params = consensus_params(network);
        proof {
            assert(params.max_target.0 =~= params_of(network).max_target.0);
        }
        params
    }
}

impl vstd::std_specs::convert::FromSpecImpl<Network> for ChainParams {
    open spec fn obeys_from_spec() -> bool {
        true
    }

    open spec fn from_spec(network: Network) -> ChainParams {
        params_of(network)
    }
}

/// The bytes of the merkle root of the first block, which all networks share.
pub open spec fn genesis_merkle_root() -> Seq<u8> {
    seq![
        0x3bu8, 0xa3, 0xed, 0xfd, 0x7a, 0x7b, 0x12, 0xb2, 0x7a, 0xc7, 0x2c, 0x3e, 0x67, 0x76, 0x8f, 0x61,
        0x7f, 0xc8, 0x1b, 0xc3, 0x88, 0x8a, 0x51, 0x32, 0x3a, 0x9f, 0xb8, 0xaa, 0x4b, 0x1e, 0x5e, 0x4a,
    ]
}

/// When the first block of a network was made, its target in compact form, and its nonce.
pub open spec fn genesis_work(network: Network) -> (u32, u32, u32) {
    match network {
        Network::Bitcoin => (1_231_006_505, 0x1d00_ffff, 2_083_236_893),
        Network::Testnet => (1_296_688_602, 0x1d00_ffff, 414_098_458),
        Network::Signet => (1_598_918_400, 0x1e03_77ae, 52_613_770),
        Network::Regtest => (1_296_688_602, 0x207f_ffff, 2),
    }
}

/// `header` is the header of the first block of `network`.
pub open spec fn is_genesis(header: BlockHeader, network: Network) -> bool {
    &&& header.version == 1
    &&& header.prev_blockhash.zero()
    &&& header.merkle_root@ == genesis_merkle_root()
    &&& (header.time, header.bits, header.nonce) == genesis_work(network)
}

/// `bitcoin::blockdata::constants::genesis_block`: the header of the first block of a network.
#[verifier::external_body]
pub(crate) fn genesis_header(network: Network) -> (header: BlockHeader)
    ensures
        is_genesis(header, network),
{
    let header = match network {
        Network::Bitcoin => genesis_block(bitcoin::Network::Bitcoin).header,
        Network::Testnet => genesis_block(bitcoin::Network::Testnet).header,
        Network::Signet => genesis_block(bitcoin::Network::Signet).header,
        Network::Regtest => genesis_block(bitcoin::Network::Regtest).header,
    };
    BlockHeader {
        version: header.version,
        prev_blockhash: Hash256(hashes::Hash::into_inner(header.prev_blockhash)),
        merkle_root: Hash256(hashes::Hash::into_inner(header.merkle_root)),
        time: header.time,
        bits: header.bits,
        nonce: header.nonce,
    }
}

/// The rules of each network: an epoch takes two weeks of 86400 seconds a day, blocks with the least
/// work are for testnet and regtest, and only regtest never changes its target. The first block of
/// a network claims its largest target.
pub proof fn law_network_rules(params: ChainParams, genesis: BlockHeader, network: Network)
    requires
        are_params_of(params, network),
        is_genesis(genesis, network),
    ensures
        params.pow_target_timespan == 14 * 86_400,
        params.pow_allow_min_diff <==> network == Network::Testnet || network == Network::Regtest,
        params.pow_allow_no_retarget <==> network == Network::Regtest,
        compact_value(genesis.bits) == params.max_target@,
        forall|k: int| 0 <= k < 32 ==> #[trigger] genesis.prev_blockhash.0@[k] == 0,
{
    let limb = max_target_limb(network) as nat;
    assert(params.max_target@ == limb_base() * (limb_base() * (limb_base() * limb)));
    assert(pow256(26) == 0x1_0000_0000_0000_0000_0000_0000_0000_0000_0000_0000_0000_0000_0000nat && pow256(27) == 256 * pow256(26) && pow256(29) == 0x1_0000 * pow256(27)
        && pow256(32) == 0x100_0000 * pow256(29)) by {
        reveal_with_fuel(pow256, 33);
    }
    match network {
        Network::Bitcoin | Network::Testnet => {
            assert(0xffff * pow256(26) == params.max_target@);
            vstd::arithmetic::div_mod::lemma_small_mod(0xffff * pow256(26), pow256(32));
        },
        Network::Signet => {
            assert(0x3_77ae * pow256(27) == params.max_target@);
            vstd::arithmetic::div_mod::lemma_small_mod(0x3_77ae * pow256(27), pow256(32));
        },
        Network::Regtest => {
            assert(0x7f_ffff * pow256(29) == params.max_target@);
            vstd::arithmetic::div_mod::lemma_small_mod(0x7f_ffff * pow256(29), pow256(32));
        },
    }
}

} // verus!
