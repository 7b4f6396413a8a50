//! What callers can rely on, request by request: the laws of the other modules, said of the
//! functions that are called.

use vstd::prelude::*;

use crate::accumulator::{law_stump_round_trip, nodes_of, proof_checked, stump_modified};
use crate::accumulator::{Proof, Stump, StumpView};
use crate::best_chain::{encoded_hashes, law_chain_round_trip, list_limit};
use crate::best_chain::{BestChain, BestChainView};
use crate::chain_state::{fee_estimate_index, flushes, loads_acc, locates, resumed_with};
use crate::chain_state::{starts_at, validation_height, value_viewed};
use crate::chain_state::{ChainState, Prepared};
use crate::connect::{accepts, connects, prepares, Candidate, ChainView, PreparedView};
use crate::encoding::{le_value, DecodeError};
use crate::error::{seen, viewed, BlockchainError, ErrorView, Fault, StoreError, TransactionError};
use crate::hash::{hashes_from, BlockHash, Hash256};
use crate::leaf::{block_leaves, law_leaf_hashes_five_things, mints, sha512_256};
use crate::locator::{is_locator, law_locator_descends};
use crate::lookup::{keeps_header, lacks_block, lacks_header, law_block_at_height};
use crate::lookup::{law_header_at_height, law_target_stays_within_epoch, reads_disk_header};
use crate::lookup::{recorded, requires_work};
use crate::notification::{notification_views, Notification};
use crate::outcomes::{fails_to_load, keeps_bytes, law_load_outcome, law_locate_outcome};
use crate::outcomes::{law_accumulator_outcome, law_lookup_outcome, law_record_outcome};
use crate::outcomes::{flushed_with, law_accept_outcome, law_commit_outcome, law_flush_outcome};
use crate::outcomes::{law_connected_block_is_sound, law_prepare_outcome, law_resume_outcome};
use crate::outcomes::{law_save_outcome, not_found, said_of, takes_in};
use crate::params::{are_params_of, is_genesis, ChainParams, Network};
use crate::pow::clock_said;
use crate::primitives::{block_hash_of, merkle_root_of, script_verdict, stripped_txid};
use crate::primitives::{transaction_bytes, transaction_views};
use crate::primitives::{Block, BlockHeader, Transaction, TransactionView};
use crate::store::{answered, ChainStore, DiskBlockHeader, Event};
use crate::uint::{compact_bits, compact_value, two_256, Uint256};
use crate::utxo::{is_spender, law_transactions_accepted, UtxoMap};

verus! {

/// Fees for one block and for ten blocks have an estimate of their own, and all others share one.
pub proof fn law_fee_estimates(target: usize, index: usize)
    requires
        call_ensures(fee_estimate_index, (target,), index),
    ensures
        index == 0 <==> target == 1,
        index == 1 <==> target == 10,
        index <= 2,
{
}

/// The tip that is told is the one that headers are accepted on, at its height, and what else is
/// told of a chain is what the chain holds.
pub proof fn law_chain_is_told<P: ChainStore>(
    state: ChainState<P>,
    height: Result<u32, BlockchainError>,
    tip: Result<(u32, BlockHash), BlockchainError>,
    params: ChainParams,
    acc: &Stump,
    ibd: bool,
)
    requires
        call_ensures(ChainState::<P>::get_height, (&state,), height),
        call_ensures(ChainState::<P>::get_best_block, (&state,), tip),
        call_ensures(ChainState::<P>::chain_params, (&state,), params),
        call_ensures(ChainState::<P>::acc, (&state,), acc),
        call_ensures(ChainState::<P>::is_in_idb, (&state,), ibd),
    ensures
        height == Ok::<u32, BlockchainError>(state@.best_block.depth),
        tip == Ok::<(u32, BlockHash), BlockchainError>(
            (state@.best_block.depth, state@.best_block.best_block),
        ),
        params == state@.chain_params,
        acc.leafs == state@.acc.leafs,
        acc.roots@ == state@.acc.roots,
        ibd == state@.ibd,
{
}

/// What is said of the download is what is told of it from then on, and nothing else changes.
pub proof fn law_download_is_told<P: ChainStore>(
    state: &mut ChainState<P>,
    ibd: bool,
    told: bool,
)
    requires
        call_ensures(ChainState::<P>::toggle_ibd, (state, ibd), ()),
        call_ensures(ChainState::<P>::is_in_idb, (final(state),), told),
    ensures
        told == ibd,
        final(state)@ == (ChainView { ibd, ..old(state)@ }),
{
}

/// A transaction that is queued comes behind those that are, and nothing else changes.
pub proof fn law_queued_transaction_comes_last<P: ChainStore>(
    state: &mut ChainState<P>,
    transaction: &Transaction,
    result: Result<(), BlockchainError>,
)
    requires
        call_ensures(ChainState::<P>::broadcast, (state, transaction), result),
    ensures
        result is Ok,
        final(state)@ == (ChainView {
            broadcast_queue: old(state)@.broadcast_queue.push(transaction@),
            ..old(state)@
        }),
{
}

/// All queued transactions are handed out, in order, and none stays.
pub proof fn law_queue_is_handed_out<P: ChainStore>(
    state: &mut ChainState<P>,
    transactions: Vec<Transaction>,
)
    requires
        call_ensures(ChainState::<P>::get_unbroadcasted, (state,), transactions),
    ensures
        transactions@.len() == old(state)@.broadcast_queue.len(),
        forall|k: int|
            0 <= k < transactions@.len() ==> (#[trigger] transactions@[k])@
                == old(state)@.broadcast_queue[k],
        final(state)@ == (ChainView { broadcast_queue: seq![], ..old(state)@ }),
{
    assert forall|k: int| 0 <= k < transactions@.len() implies (#[trigger] transactions@[k])@
        == old(state)@.broadcast_queue[k] by {
        assert(transaction_views(transactions@)[k] == transactions@[k]@);
    }
}

/// All notifications that wait are handed out, in order, and none stays.
pub proof fn law_notifications_are_handed_out<P: ChainStore>(
    state: &mut ChainState<P>,
    notifications: Vec<Notification>,
)
    requires
        call_ensures(ChainState::<P>::take_notifications, (state,), notifications),
    ensures
        notifications@.len() == old(state)@.notifications.len(),
        forall|k: int|
            0 <= k < notifications@.len() ==> (#[trigger] notifications@[k])@
                == old(state)@.notifications[k],
        final(state)@ == (ChainView { notifications: seq![], ..old(state)@ }),
{
    assert forall|k: int| 0 <= k < notifications@.len() implies (#[trigger] notifications@[k])@
        == old(state)@.notifications[k] by {
        assert(notification_views(notifications@)[k] == notifications@[k]@);
    }
}

/// A request to connect a block does what the laws on connecting say. Where anything goes out, the
/// merkle root in the header is the one over the ids of all transactions, in order, and the block
/// follows the last validated one. The rules of the chain still make sense afterwards.
pub proof fn law_connect_request<P: ChainStore>(
    state: &mut ChainState<P>,
    block: &Block,
    proof: Proof,
    inputs: UtxoMap,
    deleted: Vec<Hash256>,
    result: Result<(), BlockchainError>,
)
    requires
        call_ensures(
            ChainState::<P>::connect_block,
            (state, block, proof, inputs, deleted),
            result,
        ),
    ensures
        connects(
            old(state)@,
            final(state)@,
            Candidate { block: block@, proof: proof@, inputs: inputs@, deleted: deleted@ },
            seen(result),
        ),
        final(state)@.events != old(state)@.events ==> {
            &&& merkle_root_of(
                block.txdata@.map_values(
                    |transaction: Transaction| stripped_txid(transaction@.stripped()),
                ),
            ) == Some(block.header.merkle_root)
            &&& block.header.prev_blockhash == old(state)@.best_block.validation_index
        },
        final(state)@.chain_params.pow_target_timespan > 0,
{
    let candidate = Candidate { block: block@, proof: proof@, inputs: inputs@, deleted: deleted@ };
    if final(state)@.events != old(state)@.events {
        law_connected_block_is_sound(old(state)@, final(state)@, candidate, seen(result));
        assert(block@.txdata.map_values(
            |transaction: TransactionView| stripped_txid(transaction.stripped()),
        ) =~= block.txdata@.map_values(
            |transaction: Transaction| stripped_txid(transaction@.stripped()),
        ));
    }
}

/// A request to make the checks on a block does what the laws on them say, and where they pass, the
/// store has a record of the block, with its header alone.
pub proof fn law_prepare_request<P: ChainStore>(
    state: ChainState<P>,
    block: &Block,
    proof: Proof,
    inputs: UtxoMap,
    deleted: Vec<Hash256>,
    prepared: Result<Prepared, BlockchainError>,
)
    requires
        call_ensures(
            ChainState::<P>::prepare_block,
            (&state, block, proof, inputs, deleted),
            prepared,
        ),
    ensures
        prepares(
            state@,
            Candidate { block: block@, proof: proof@, inputs: inputs@, deleted: deleted@ },
            viewed(prepared),
        ),
        prepared matches Ok(outcome) ==> outcome@ matches PreparedView::Valid(valid) ==> {
            &&& valid.block == block@
            &&& valid.hash == block_hash_of(block.header)
            &&& exists|header: BlockHeader| #[trigger]
                said_of(
                    state@.store,
                    valid.hash,
                    Ok(Some(DiskBlockHeader::HeadersOnly(header, valid.height))),
                )
        },
{
    law_prepare_outcome(
        state@,
        Candidate { block: block@, proof: proof@, inputs: inputs@, deleted: deleted@ },
        viewed(prepared),
    );
}

/// A request to carry out what the checks led to takes a valid block in, counts a block that was
/// validated before as the last one, and does nothing for one that is not on the chain.
pub proof fn law_commit_request<P: ChainStore>(
    state: &mut ChainState<P>,
    prepared: Prepared,
    result: Result<(), BlockchainError>,
)
    requires
        call_ensures(ChainState::<P>::commit_block, (state, prepared), result),
    ensures
        match prepared@ {
            PreparedView::Valid(valid) => takes_in(
                old(state)@,
                final(state)@,
                valid,
                seen(result),
            ),
            PreparedView::Validated(hash) => result is Ok
                && final(state)@.best_block.validation_index == hash
                && final(state)@.best_block.best_block == old(state)@.best_block.best_block
                && final(state)@.events == old(state)@.events && final(state)@.acc
                == old(state)@.acc,
            PreparedView::Orphan => result is Ok && final(state)@ == old(state)@,
        },
{
    law_commit_outcome(old(state)@, final(state)@, prepared@, seen(result));
}

/// A request to accept a header does what the laws on accepting say. A header that is taken follows
/// the tip that was and is the tip, one higher.
pub proof fn law_accept_request<P: ChainStore>(
    state: &mut ChainState<P>,
    header: BlockHeader,
    result: Result<(), BlockchainError>,
    tip: Result<(u32, BlockHash), BlockchainError>,
)
    requires
        call_ensures(ChainState::<P>::accept_header, (state, header), result),
        call_ensures(ChainState::<P>::get_best_block, (final(state),), tip),
    ensures
        accepts(old(state)@, final(state)@, header, seen(result)),
        result is Ok && final(state)@ != old(state)@ ==> {
            &&& header.prev_blockhash == old(state)@.best_block.best_block
            &&& tip == Ok::<(u32, BlockHash), BlockchainError>(
                ((old(state)@.best_block.depth + 1) as u32, block_hash_of(header)),
            )
        },
        result is Err ==> tip == Ok::<(u32, BlockHash), BlockchainError>(
            (old(state)@.best_block.depth, old(state)@.best_block.best_block),
        ),
        final(state)@.chain_params.pow_target_timespan > 0,
{
    law_accept_outcome(old(state)@, final(state)@, header, seen(result));
}

/// A request to save the accumulator tells the store its bytes and changes nothing.
pub proof fn law_save_request<P: ChainStore>(
    state: &mut ChainState<P>,
    result: Result<(), BlockchainError>,
)
    requires
        call_ensures(ChainState::<P>::save_acc, (state,), result),
    ensures
        exists|reply: Result<(), StoreError>| #[trigger]
            answered(old(state)@.store, Event::Roots(old(state)@.acc.encoded(), reply))
                && final(state)@ == (ChainView {
                events: old(state)@.events.push(Event::Roots(old(state)@.acc.encoded(), reply)),
                ..old(state)@
            }) && (result is Ok <==> reply is Ok),
        result is Err ==> seen(result) == Err::<(), ErrorView>(
            ErrorView::Fatal(Fault::RootsNotSaved),
        ),
{
    law_save_outcome(old(state)@, final(state)@, seen(result));
}

/// A request to flush does what the laws on flushing say. Where it succeeds, the accumulator, the
/// order to make all durable and the best chain went to the store, in this order.
pub proof fn law_flush_request<P: ChainStore>(
    state: &mut ChainState<P>,
    result: Result<(), BlockchainError>,
)
    requires
        call_ensures(ChainState::<P>::flush, (state,), result),
    ensures
        flushes(old(state)@, final(state)@, seen(result)),
        result is Ok ==> flushed_with(old(state)@, final(state)@, Ok(()), Ok(())),
{
    law_flush_outcome(old(state)@, final(state)@, seen(result));
    if result is Ok {
        assert(result->Ok_0 == ());
        let reply = choose|reply: Result<(), StoreError>| #[trigger]
            flushed_with(old(state)@, final(state)@, reply, seen(result));
        assert(reply is Ok);
        assert(reply->Ok_0 == ());
    }
}

/// The chain that is started from the header `genesis`.
pub open spec fn begins_at<P: ChainStore>(
    state: ChainView<P>,
    store: P,
    genesis: BlockHeader,
    network: Network,
) -> bool {
    let write = Event::Header(DiskBlockHeader::FullyValid(genesis, 0), 0, Ok(()));
    &&& is_genesis(genesis, network)
    &&& answered(store, write)
    &&& are_params_of(state.chain_params, network)
    &&& state == (ChainView {
        acc: StumpView { leafs: 0, roots: seq![] },
        best_block: BestChainView {
            best_block: block_hash_of(genesis),
            depth: 0,
            validation_index: block_hash_of(genesis),
            rescan_index: None,
            alternative_tips: seq![],
        },
        broadcast_queue: seq![],
        notifications: seq![],
        ibd: true,
        chain_params: state.chain_params,
        store,
        events: seq![write],
    })
}

/// The store refused the header of the first block.
pub open spec fn genesis_refused<P: ChainStore>(
    store: P,
    genesis: BlockHeader,
    network: Network,
    error: StoreError,
) -> bool {
    is_genesis(genesis, network) && answered(
        store,
        Event::Header(DiskBlockHeader::FullyValid(genesis, 0), 0, Err(error)),
    )
}

/// A new chain stands at the first block of its network, which is validated and saved, with nothing
/// in its accumulator and nothing queued, and is still to be downloaded. There is none where the
/// store refuses the header of that block.
pub proof fn law_new_chain<P: ChainStore>(
    store: P,
    network: Network,
    result: Result<ChainState<P>, BlockchainError>,
)
    requires
        call_ensures(ChainState::<P>::new, (store, network), result),
    ensures
        match result {
            Ok(state) => exists|genesis: BlockHeader| #[trigger]
                begins_at(state@, store, genesis, network),
            Err(error) => error@ == ErrorView::Fatal(Fault::GenesisNotSaved) && exists|
                genesis: BlockHeader,
                refusal: StoreError,
            | #[trigger]
                genesis_refused(store, genesis, network, refusal),
        },
{
    let (genesis, reply) = choose|genesis: BlockHeader, reply: Result<(), StoreError>|
        is_genesis(genesis, network) && #[trigger] answered(
            store,
            Event::Header(DiskBlockHeader::FullyValid(genesis, 0), 0, reply),
        ) && match result {
            Ok(state) => reply is Ok && state.wf() && starts_at(state@, genesis, network)
                && state@.store == store && state@.events == seq![
                Event::Header(DiskBlockHeader::FullyValid(genesis, 0), 0, reply),
            ],
            Err(error) => reply is Err && error@ == ErrorView::Fatal(Fault::GenesisNotSaved),
        };
    if result is Ok {
        let state = result->Ok_0@;
        assert(reply->Ok_0 == ());
        assert(state.broadcast_queue =~= seq![]);
        assert(state.notifications =~= seq![]);
        assert(state.best_block.alternative_tips =~= seq![]);
        assert(begins_at(state, store, genesis, network));
    } else {
        assert(genesis_refused(store, genesis, network, reply->Err_0));
    }
}

/// A chain that is taken up stands where the store says and has the accumulator that the store
/// holds. It is not taken up where the store holds no chain, or what it holds is of no use.
pub proof fn law_chain_is_taken_up<P: ChainStore>(
    store: P,
    network: Network,
    result: Result<ChainState<P>, BlockchainError>,
)
    requires
        call_ensures(ChainState::<P>::load_chain_state, (store, network), result),
    ensures
        match viewed(result) {
            Ok(state) => {
                &&& exists|chain: BestChain|
                    {
                        &&& #[trigger] call_ensures(P::load_height, (&store,), Ok(Some(chain)))
                        &&& state.best_block.best_block == chain.best_block
                        &&& state.best_block.depth == chain.depth
                        &&& state.best_block.validation_index == chain.validation_index
                        &&& state.best_block.rescan_index == chain.rescan_index
                        &&& state.best_block.alternative_tips == chain.alternative_tips@
                    }
                &&& {
                    ||| call_ensures(P::load_roots, (&store,), Ok(None)) && state.acc.leafs == 0
                        && state.acc.roots.len() == 0
                    ||| exists|bytes: Vec<u8>| #[trigger]
                        keeps_bytes(store, bytes) && state.acc.leafs == le_value(bytes@.take(8))
                            && state.acc.roots == hashes_from(bytes@.skip(8))
                }
                &&& are_params_of(state.chain_params, network)
                &&& state.store == store
                &&& state.ibd
                &&& state.broadcast_queue.len() == 0
                &&& state.notifications.len() == 0
                &&& state.events.len() == 0
            },
            Err(ErrorView::Fatal(Fault::RootsUnreadable)) => exists|error: StoreError| #[trigger]
                fails_to_load(store, error),
            Err(ErrorView::Fatal(Fault::RootsMalformed)) => exists|bytes: Vec<u8>| #[trigger]
                keeps_bytes(store, bytes) && (bytes@.len() < 8 || (bytes@.len() >= 40 && (
                bytes@.len() - 8) % 32 != 0)),
            Err(ErrorView::ChainNotInitialized) => call_ensures(
                P::load_height,
                (&store,),
                Ok(None),
            ),
            Err(ErrorView::DatabaseError(error)) => call_ensures(
                P::load_height,
                (&store,),
                Err(error),
            ),
            Err(_) => false,
        },
{
    let acc = choose|acc: Result<StumpView, Fault>| #[trigger]
        loads_acc(store, acc) && resumed_with(acc, store, network, viewed(result));
    law_load_outcome(store, acc);
    law_resume_outcome(acc, store, network, viewed(result));
}

/// The accumulator alone is loaded as it is for a whole chain.
pub proof fn law_acc_is_loaded<P: ChainStore, S: ChainStore>(
    store: S,
    loaded: Result<Stump, Fault>,
)
    requires
        call_ensures(ChainState::<P>::load_acc::<S>, (&store,), loaded),
    ensures
        match loaded {
            Ok(acc) => {
                ||| call_ensures(S::load_roots, (&store,), Ok(None)) && acc.leafs == 0
                    && acc.roots@.len() == 0
                ||| exists|bytes: Vec<u8>| #[trigger]
                    keeps_bytes(store, bytes) && acc.leafs == le_value(bytes@.take(8))
                        && acc.roots@ == hashes_from(bytes@.skip(8))
            },
            Err(Fault::RootsUnreadable) => exists|error: StoreError| #[trigger]
                fails_to_load(store, error),
            Err(Fault::RootsMalformed) => exists|bytes: Vec<u8>| #[trigger]
                keeps_bytes(store, bytes) && (bytes@.len() < 8 || (bytes@.len() >= 40 && (
                bytes@.len() - 8) % 32 != 0)),
            Err(_) => false,
        },
{
    law_load_outcome(store, value_viewed(loaded));
}

/// What is asked of the store is answered as the store answers.
pub proof fn law_lookups<P: ChainStore>(
    state: ChainState<P>,
    hash: BlockHash,
    record: Result<DiskBlockHeader, BlockchainError>,
    header: Result<BlockHeader, BlockchainError>,
)
    requires
        call_ensures(ChainState::<P>::get_disk_block_header, (&state, &hash), record),
        call_ensures(ChainState::<P>::get_block_header, (&state, &hash), header),
    ensures
        match seen(record) {
            Ok(found) => said_of(state@.store, hash, Ok(Some(found))),
            Err(error) => not_found(state@.store, hash, error),
        },
        match seen(header) {
            Ok(header) => exists|found: DiskBlockHeader| #[trigger]
                said_of(state@.store, hash, Ok(Some(found))) && header == recorded(found),
            Err(error) => not_found(state@.store, hash, error),
        },
{
    law_record_outcome(state@.store, hash, seen(record));
    law_lookup_outcome(state@.store, hash, seen(header));
}

/// What is asked of the store by height is answered as the store answers.
pub proof fn law_lookups_by_height<P: ChainStore>(
    state: ChainState<P>,
    height: u32,
    hash: Result<BlockHash, BlockchainError>,
    header: Result<BlockHeader, Fault>,
)
    requires
        call_ensures(ChainState::<P>::get_block_hash, (&state, height), hash),
        call_ensures(ChainState::<P>::get_block_header_by_height, (&state, height), header),
    ensures
        match seen(hash) {
            Ok(found) => call_ensures(P::get_block_hash, (&state@.store, height), Ok(Some(found))),
            Err(ErrorView::BlockNotPresent) => call_ensures(
                P::get_block_hash,
                (&state@.store, height),
                Ok(None),
            ),
            Err(ErrorView::DatabaseError(error)) => call_ensures(
                P::get_block_hash,
                (&state@.store, height),
                Err(error),
            ),
            Err(_) => false,
        },
        match header {
            Ok(found) => keeps_header(state@.store, height, found),
            Err(Fault::MissingBlock) => lacks_block(state@.store, height),
            Err(Fault::MissingHeader) => lacks_header(state@.store, height),
            Err(_) => false,
        },
{
    law_block_at_height(state@.store, height, seen(hash));
    law_header_at_height(state@.store, height, header);
}

/// `store` can have a record that `hash` stands at `height`, validated or not.
pub open spec fn stands_at<P: ChainStore>(store: P, hash: BlockHash, height: u32) -> bool {
    ||| exists|header: BlockHeader| #[trigger]
        said_of(store, hash, Ok(Some(DiskBlockHeader::FullyValid(header, height))))
    ||| exists|header: BlockHeader| #[trigger]
        said_of(store, hash, Ok(Some(DiskBlockHeader::HeadersOnly(header, height))))
}

/// `store` can have a record that `hash` is not on the chain.
pub open spec fn stands_apart<P: ChainStore>(store: P, hash: BlockHash) -> bool {
    exists|header: BlockHeader| #[trigger]
        said_of(store, hash, Ok(Some(DiskBlockHeader::Orphan(header))))
}

/// The height of the last validated block is the one in the store's record of it, and it is a fault
/// where that record says that the block is not on the chain.
pub proof fn law_validation_height<P: ChainStore>(
    state: ChainState<P>,
    height: Result<u32, BlockchainError>,
)
    requires
        call_ensures(ChainState::<P>::get_validation_index, (&state,), height),
    ensures
        match seen(height) {
            Ok(at) => stands_at(state@.store, state@.best_block.validation_index, at),
            Err(ErrorView::Fatal(Fault::ValidatedOrphan)) => stands_apart(
                state@.store,
                state@.best_block.validation_index,
            ),
            Err(error) => not_found(state@.store, state@.best_block.validation_index, error),
        },
{
    let (store, hash) = (state@.store, state@.best_block.validation_index);
    let found = choose|found: Result<DiskBlockHeader, ErrorView>| #[trigger]
        reads_disk_header(store, hash, found) && seen(height) == validation_height(found);
    law_record_outcome(store, hash, found);
    match found {
        Ok(DiskBlockHeader::FullyValid(header, at)) => {
            assert(said_of(store, hash, Ok(Some(DiskBlockHeader::FullyValid(header, at)))));
        },
        Ok(DiskBlockHeader::HeadersOnly(header, at)) => {
            assert(said_of(store, hash, Ok(Some(DiskBlockHeader::HeadersOnly(header, at)))));
        },
        Ok(DiskBlockHeader::Orphan(header)) => {
            assert(said_of(store, hash, Ok(Some(DiskBlockHeader::Orphan(header)))));
        },
        Err(error) => {
            assert(not_found(store, hash, error));
        },
    }
}

/// A block locator starts with the block that the store says stands at the height of the tip and
/// ends with the one at height zero. Between them stand the blocks at the heights of the locator
/// for the tip. It fails only where the store names no block at one of them.
pub proof fn law_block_locator<P: ChainStore>(
    state: ChainState<P>,
    locator: Result<Vec<BlockHash>, BlockchainError>,
)
    requires
        call_ensures(ChainState::<P>::get_block_locator, (&state,), locator),
    ensures
        exists|heights: Seq<u32>| #[trigger]
            is_locator(state@.best_block.depth, heights) && heights[0] == state@.best_block.depth
                && heights.last() == 0 && match viewed(locator) {
                Ok(hashes) => hashes.len() == heights.len() && forall|k: int|
                    0 <= k < hashes.len() ==> call_ensures(
                        P::get_block_hash,
                        (&state@.store, heights[k]),
                        Ok(Some(#[trigger] hashes[k])),
                    ),
                Err(error) => error == ErrorView::Fatal(Fault::MissingBlock) && exists|k: int|
                    0 <= k < heights.len() && lacks_block(state@.store, #[trigger] heights[k]),
            },
{
    let heights = choose|heights: Seq<u32>| #[trigger]
        is_locator(state@.best_block.depth, heights) && locates(
            state@.store,
            heights,
            viewed(locator),
        );
    law_locate_outcome(state@.store, heights, viewed(locator));
    law_locator_descends(state@.best_block.depth, heights);
    assert(is_locator(state@.best_block.depth, heights));
}

/// The target that is required within an epoch is that of the block before, at whatever time it is
/// asked, on networks that never settle for the least work.
pub proof fn law_required_work<P: ChainStore>(
    state: ChainState<P>,
    last: BlockHeader,
    height: u32,
    now: u64,
    at: Result<Uint256, BlockchainError>,
    work: Result<Uint256, BlockchainError>,
)
    requires
        call_ensures(
            ChainState::<P>::get_next_required_work_at,
            (&state, &last, height, now),
            at,
        ),
        call_ensures(ChainState::<P>::get_next_required_work, (&state, &last, height), work),
    ensures
        requires_work(state@.store, state@.chain_params, last, height, now, viewed(at)),
        exists|now: u64|
            clock_said(now) && #[trigger] requires_work(
                state@.store,
                state@.chain_params,
                last,
                height,
                now,
                viewed(work),
            ),
        !state@.chain_params.pow_allow_min_diff && (state@.chain_params.pow_allow_no_retarget
            || height % 2016 != 0) ==> viewed(at) == Ok::<nat, ErrorView>(compact_value(last.bits))
            && viewed(work) == viewed(at),
{
    let read = choose|now: u64|
        clock_said(now) && #[trigger] requires_work(
            state@.store,
            state@.chain_params,
            last,
            height,
            now,
            viewed(work),
        );
    assert(requires_work(state@.store, state@.chain_params, last, height, read, viewed(work)));
    if !state@.chain_params.pow_allow_min_diff && (state@.chain_params.pow_allow_no_retarget
        || height % 2016 != 0) {
        law_target_stays_within_epoch(
            state@.store,
            state@.chain_params,
            last,
            height,
            now,
            viewed(at),
        );
        law_target_stays_within_epoch(
            state@.store,
            state@.chain_params,
            last,
            height,
            read,
            viewed(work),
        );
    }
}

/// The target of the next epoch is the one of the last block, times the seconds from the first
/// block to the last, over the seconds that an epoch should take, in compact form.
pub proof fn law_next_work<P: ChainStore>(
    last: BlockHeader,
    first: BlockHeader,
    params: ChainParams,
    bits: u32,
)
    requires
        first.time <= last.time,
        params.pow_target_timespan > 0,
        call_ensures(ChainState::<P>::calc_next_work_required, (&last, &first, params), bits),
    ensures
        bits == compact_bits(
            compact_value(last.bits) * (last.time - first.time) as nat % two_256()
                / params.pow_target_timespan as nat,
        ),
{
}

/// Transactions are found in order exactly where every input that spends something spends a known
/// output whose script, asked with its value, accepts it, and no two spend the same one.
pub proof fn law_spending_is_checked<P: ChainStore>(
    utxos: UtxoMap,
    transactions: &Vec<Transaction>,
    result: Result<bool, TransactionError>,
)
    requires
        call_ensures(ChainState::<P>::verify_block_transactions, (utxos, transactions), result),
    ensures
        ({
            let all = Seq::new(transactions@.len(), |t: int| transactions@[t]@);
            result is Ok <==> {
                &&& forall|t: int, i: int| #[trigger]
                    is_spender(all, t, i) ==> {
                        let out_point = all[t].input[i].previous_output;
                        &&& utxos@.contains_key(out_point)
                        &&& script_verdict(
                            utxos@[out_point].script_pubkey,
                            i as usize,
                            utxos@[out_point].value,
                            transaction_bytes(all[t]),
                        ) is Ok
                    }
                &&& forall|t: int, i: int, u: int, j: int| #[trigger]
                    is_spender(all, t, i) && #[trigger] is_spender(all, u, j)
                        && all[t].input[i].previous_output == all[u].input[j].previous_output
                        ==> t == u && i == j
            }
        }),
        result matches Ok(answer) ==> answer,
{
    let all = Seq::new(transactions@.len(), |t: int| transactions@[t]@);
    assert(all =~= transaction_views(transactions@));
    law_transactions_accepted(all, utxos@);
}

/// The accumulator after a block is what the proof, the leaves that go and the leaves of the block
/// make of it.
pub proof fn law_acc_is_updated<P: ChainStore>(
    acc: Stump,
    block: Block,
    height: u32,
    proof: Proof,
    deleted: Vec<Hash256>,
    updated: Result<Stump, BlockchainError>,
)
    requires
        call_ensures(
            ChainState::<P>::update_acc,
            (&acc, &block, height, proof, deleted),
            updated,
        ),
    ensures
        ({
            let held = proof_checked(
                acc.leafs,
                nodes_of(acc.roots@),
                proof.targets@,
                nodes_of(proof.hashes@),
                nodes_of(deleted@),
            );
            let modified = stump_modified(
                acc.leafs,
                nodes_of(acc.roots@),
                nodes_of(block@.leaves(height)),
                nodes_of(deleted@),
                proof.targets@,
                nodes_of(proof.hashes@),
            );
            match viewed(updated) {
                Ok(after) => held == Ok::<bool, Seq<char>>(true) && modified == Ok::<
                    (u64, Seq<Hash256>),
                    Seq<char>,
                >((after.leafs, after.roots)),
                Err(ErrorView::InvalidProof) => held == Ok::<bool, Seq<char>>(false),
                Err(ErrorView::UtreexoError(text)) => held == Err::<bool, Seq<char>>(text) || (held
                    == Ok::<bool, Seq<char>>(true) && modified == Err::<
                    (u64, Seq<Hash256>),
                    Seq<char>,
                >(text)),
                Err(_) => false,
            }
        }),
{
    law_accumulator_outcome(acc@, block@, height, proof@, deleted@);
}

/// The merkle root that a header is held to is the one over the ids of all transactions, in order,
/// whether their number is even or odd.
pub proof fn law_merkle_root_over_all(block: Block, answer: bool)
    requires
        call_ensures(Block::check_merkle_root, (&block,), answer),
    ensures
        answer <==> merkle_root_of(
            Seq::new(
                block.txdata@.len(),
                |t: int| stripped_txid(block.txdata@[t]@.stripped()),
            ),
        ) == Some(block.header.merkle_root),
{
    assert(Seq::new(
        block.txdata@.len(),
        |t: int| stripped_txid(block.txdata@[t]@.stripped()),
    ) =~= block@.txids());
}

/// A transaction mints exactly where its one input refers to the hash of zeros at the highest
/// position.
pub proof fn law_minting_is_seen(transaction: Transaction, answer: bool)
    requires
        call_ensures(Transaction::is_coin_base, (&transaction,), answer),
    ensures
        answer <==> mints(transaction@),
{
    if transaction@.input.len() == 1 {
        let txid = transaction@.input[0].previous_output.txid;
        assert(txid.zero() == forall|k: int| 0 <= k < 32 ==> #[trigger] txid.0@[k] == 0);
    }
}

/// What enters the id of a transaction is all of it but the witnesses of its inputs.
pub proof fn law_id_is_without_witnesses(transaction: TransactionView)
    ensures
        transaction.stripped().version == transaction.version,
        transaction.stripped().lock_time == transaction.lock_time,
        transaction.stripped().output == transaction.output,
        transaction.stripped().input.len() == transaction.input.len(),
        forall|i: int|
            0 <= i < transaction.input.len() ==> {
                let kept = #[trigger] transaction.stripped().input[i];
                &&& kept.previous_output == transaction.input[i].previous_output
                &&& kept.script_sig == transaction.input[i].script_sig
                &&& kept.sequence == transaction.input[i].sequence
                &&& kept.witness.len() == 0
            },
{
}

/// The leaf that is computed for an output is the hash of the block, the id of the transaction, the
/// position in four bytes, twice the height in four bytes, odd for a transaction that mints, and
/// the output.
pub proof fn law_leaf_is_computed<P: ChainStore>(
    transaction: Transaction,
    vout: u32,
    height: u32,
    block_hash: BlockHash,
    leaf: Hash256,
)
    requires
        call_ensures(
            ChainState::<P>::get_leaf_hashes,
            (&transaction, vout, height, block_hash),
            leaf,
        ),
    ensures
        ({
            let v = vout as nat;
            let c = (2 * height as nat) % 0x1_0000_0000 + if mints(transaction@) {
                1nat
            } else {
                0nat
            };
            leaf == sha512_256(
                block_hash.0@ + stripped_txid(transaction@.stripped()).0@ + seq![
                    (v % 256) as u8,
                    (v / 256 % 256) as u8,
                    (v / 65_536 % 256) as u8,
                    (v / 16_777_216 % 256) as u8,
                ] + seq![
                    (c % 256) as u8,
                    (c / 256 % 256) as u8,
                    (c / 65_536 % 256) as u8,
                    (c / 16_777_216 % 256) as u8,
                ] + transaction@.output[vout as int].encoded(),
            )
        }),
{
    law_leaf_hashes_five_things(transaction@, vout, height, block_hash);
}

/// An accumulator that is written and read again is the same.
pub proof fn law_stump_is_read_back(acc: Stump, bytes: Vec<u8>, read: Option<Stump>)
    requires
        call_ensures(Stump::serialize, (&acc,), bytes),
        call_ensures(Stump::deserialize, (&bytes,), read),
    ensures
        read is Some,
        read->Some_0.leafs == acc.leafs,
        read->Some_0.roots@ == acc.roots@,
{
    law_stump_round_trip(acc@);
}

/// A best chain that is written behind other bytes and read again, whatever follows it, is the
/// same, and takes as many bytes as were written.
pub proof fn law_chain_is_read_back(
    chain: BestChain,
    writer: &mut Vec<u8>,
    length: usize,
    rest: Seq<u8>,
    bytes: &[u8],
    read: Result<(BestChain, usize), DecodeError>,
)
    requires
        encoded_hashes(chain.alternative_tips@).len() <= list_limit(),
        chain.rescan_index matches Some(hash) ==> !hash.zero(),
        call_ensures(BestChain::consensus_encode, (&chain, writer), length),
        bytes@ == final(writer)@.skip(old(writer)@.len() as int) + rest,
        call_ensures(BestChain::consensus_decode, (bytes,), read),
    ensures
        final(writer)@.take(old(writer)@.len() as int) == old(writer)@,
        length == final(writer)@.len() - old(writer)@.len(),
        read is Ok,
        read->Ok_0.0@ == chain@,
        read->Ok_0.1 == length,
{
    assert(final(writer)@.skip(old(writer)@.len() as int) =~= chain@.encoded());
    assert(final(writer)@.take(old(writer)@.len() as int) =~= old(writer)@);
    law_chain_round_trip(chain@, rest);
}

/// Taking a block for the last one, or for the last validated one, changes just that.
pub proof fn law_chain_moves(
    chain: &mut BestChain,
    validated: &mut BestChain,
    hash: BlockHash,
    height: u32,
)
    requires
        call_ensures(BestChain::new_block, (chain, hash, height), ()),
        call_ensures(BestChain::valid_block, (validated, hash), ()),
    ensures
        final(chain)@ == (BestChainView {
            best_block: hash,
            depth: height,
            validation_index: old(chain)@.validation_index,
            rescan_index: old(chain)@.rescan_index,
            alternative_tips: old(chain)@.alternative_tips,
        }),
        final(validated)@ == (BestChainView {
            best_block: old(validated)@.best_block,
            depth: old(validated)@.depth,
            validation_index: hash,
            rescan_index: old(validated)@.rescan_index,
            alternative_tips: old(validated)@.alternative_tips,
        }),
{
}

/// The leaves that are computed for a block are those that the laws on leaves speak of.
pub proof fn law_leaves_are_computed(block: Block, height: u32, leaves: Vec<Hash256>)
    requires
        call_ensures(block_leaves, (&block, height), leaves),
    ensures
        leaves@ == block@.leaves(height),
{
}

} // verus!
