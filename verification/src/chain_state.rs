//! The state of the chain, and everything that can be asked of it.

use vstd::prelude::*;

use crate::accumulator::{holds_stump, Proof, Stump, StumpView};
use crate::best_chain::{BestChain, BestChainView};
use crate::connect::{acc_updated, check_block, check_contents, check_work, updated_acc};
use crate::connect::{accepts, accepts_after, accepts_found, accepts_with_work, extends_tip};
use crate::connect::{commits, commits_height, commits_valid, connects, connects_prepared};
use crate::connect::{prepared_with_work, prepares, prepares_after, prepares_at, prepares_found};
use crate::connect::{prepares_with, prepares_with_parent, refuses, saves_roots};
use crate::connect::{Candidate, ChainView, PreparedView, ValidBlockView};
use crate::error::{seen, viewed, BlockchainError, ErrorView, Fault, StoreError, TransactionError};
use crate::hash::{BlockHash, Hash256};
use crate::leaf::{get_leaf_hash, leaf_hash};
use crate::locator::{is_locator, locator_heights};
use crate::lookup::{block_at, disk_header, header_at, work_at};
use crate::lookup::{reads_disk_header, reads_hash, reads_header, reads_header_at, requires_work};
use crate::notification::{notification_views, Notification};
use crate::params::{are_params_of, genesis_header, is_genesis, ChainParams, Network};
use crate::pow::{clock_said, next_bits, next_work, read_clock};
use crate::primitives::{block_hash_of, transaction_views};
use crate::primitives::{Block, BlockHeader, Transaction};
use crate::store::{answered, ChainStore, DiskBlockHeader, Event, Journal};
use crate::uint::Uint256;
use crate::utxo::{transactions_checked, verify_transactions, UtxoMap};

verus! {

/// What a chain is made of.
pub struct ChainStateInner<PersistedState: ChainStore> {
    /// The accumulator of what can be spent.
    acc: Stump,
    /// Where everything is kept, and what those who listen are to be told.
    chainstore: Journal<PersistedState>,
    /// The best chain that is known.
    best_block: BestChain,
    /// Transactions that are to be sent to peers.
    broadcast_queue: Vec<Transaction>,
    /// Whether the chain is still being downloaded.
    ibd: bool,
    /// The rules of the network.
    chain_params: ChainParams,
}

/// A chain of headers that is validated block by block, with an accumulator in the place of the
/// set of outputs that can be spent.
pub struct ChainState<PersistedState: ChainStore> {
    inner: ChainStateInner<PersistedState>,
}

impl<PersistedState: ChainStore> View for ChainState<PersistedState> {
    type V = ChainView<PersistedState>;

    closed spec fn view(&self) -> ChainView<PersistedState> {
        ChainView {
            acc: self.inner.acc@,
            best_block: self.inner.best_block@,
            broadcast_queue: transaction_views(self.inner.broadcast_queue@),
            notifications: self.inner.chainstore.outbox(),
            ibd: self.inner.ibd,
            chain_params: self.inner.chain_params,
            store: self.inner.chainstore.store(),
            events: self.inner.chainstore.events(),
        }
    }
}

/// A block that passed all checks.
struct ValidBlock {
    block: Block,
    height: u32,
    hash: BlockHash,
    /// The accumulator after the block.
    acc: Stump,
}

impl View for ValidBlock {
    type V = ValidBlockView;

    closed spec fn view(&self) -> ValidBlockView {
        ValidBlockView {
            block: self.block@,
            height: self.height,
            hash: self.hash,
            acc: self.acc@,
        }
    }
}

enum Step {
    Validated(BlockHash),
    Orphan,
    Valid(ValidBlock),
}

/// What the checks on a block led to.
pub struct Prepared {
    step: Step,
}

impl View for Prepared {
    type V = PreparedView;

    closed spec fn view(&self) -> PreparedView {
        match self.step {
            Step::Validated(hash) => PreparedView::Validated(hash),
            Step::Orphan => PreparedView::Orphan,
            Step::Valid(valid) => PreparedView::Valid(valid@),
        }
    }
}

impl Prepared {
    /// The accumulator after a valid block has one leaf more than `acc` for each of its leaves.
    pub open spec fn grows(self, acc: StumpView) -> bool {
        self@ matches PreparedView::Valid(valid) ==> valid.acc.leafs == acc.leafs
            + valid.block.leaves(valid.height).len()
    }

    /// What those who listen are told before `commit_block` takes the block into the chain.
    pub fn notification(&self) -> (notification: Option<Notification>)
        ensures
            match notification {
                Some(notification) => self@.notification() == Some(notification@),
                None => self@.notification() is None,
            },
    {
        match &self.step {
            Step::Validated(_) => None,
            Step::Orphan => None,
            Step::Valid(valid) => Some(Notification::NewBlock(valid.block.clone(), valid.height)),
        }
    }
}

/// A block that is valid is the one that was to be connected.
proof fn lemma_prepared_block<P: ChainStore>(
    state: ChainView<P>,
    candidate: Candidate,
    result: Result<PreparedView, ErrorView>,
)
    requires
        prepares(state, candidate, result),
    ensures
        result matches Ok(PreparedView::Valid(valid)) ==> valid.block == candidate.block,
{
}

/// The state that a chain starts from: at the first block, with nothing in the accumulator, and
/// still to be downloaded.
pub open spec fn starts_at<P: ChainStore>(
    state: ChainView<P>,
    genesis: BlockHeader,
    network: Network,
) -> bool {
    &&& state.acc == (StumpView { leafs: 0, roots: seq![] })
    &&& state.best_block.best_block == block_hash_of(genesis)
    &&& state.best_block.depth == 0
    &&& state.best_block.validation_index == block_hash_of(genesis)
    &&& state.best_block.rescan_index is None
    &&& state.best_block.alternative_tips.len() == 0
    &&& state.broadcast_queue.len() == 0
    &&& state.notifications.len() == 0
    &&& state.ibd
    &&& are_params_of(state.chain_params, network)
}

/// The accumulator that is loaded where the store answers so: the empty one where nothing was
/// kept, and nothing where the store fails or what was kept is no accumulator.
pub open spec fn loaded_acc(reply: Result<Option<Seq<u8>>, StoreError>) -> Result<
    StumpView,
    Fault,
> {
    match reply {
        Err(_) => Err(Fault::RootsUnreadable),
        Ok(None) => Ok(StumpView { leafs: 0, roots: seq![] }),
        Ok(Some(bytes)) => if holds_stump(bytes) {
            Ok(StumpView::decoded(bytes))
        } else {
            Err(Fault::RootsMalformed)
        },
    }
}

/// The reply with the contents of its bytes.
pub open spec fn bytes_of(reply: Result<Option<Vec<u8>>, StoreError>) -> Result<
    Option<Seq<u8>>,
    StoreError,
> {
    match reply {
        Err(error) => Err(error),
        Ok(None) => Ok(None),
        Ok(Some(bytes)) => Ok(Some(bytes@)),
    }
}

/// `loaded` can be what loading the accumulator from `store` gives.
pub open spec fn loads_acc<P: ChainStore>(store: P, loaded: Result<StumpView, Fault>) -> bool {
    exists|reply: Result<Option<Vec<u8>>, StoreError>| #[trigger]
        call_ensures(P::load_roots, (&store,), reply) && loaded == loaded_acc(bytes_of(reply))
}

/// The state of a chain that is taken up again: nothing is queued, and it counts as still to be
/// downloaded.
pub open spec fn resumes<P: ChainStore>(
    state: ChainView<P>,
    acc: StumpView,
    best_chain: BestChainView,
    network: Network,
) -> bool {
    &&& state.acc == acc
    &&& state.best_block == best_chain
    &&& state.broadcast_queue.len() == 0
    &&& state.notifications.len() == 0
    &&& state.ibd
    &&& are_params_of(state.chain_params, network)
    &&& state.events.len() == 0
}

/// What taking up a chain ends in where the store answers so when it is asked for the best chain.
pub open spec fn resumed<P: ChainStore>(
    acc: StumpView,
    reply: Result<Option<BestChain>, StoreError>,
    store: P,
    network: Network,
    result: Result<ChainView<P>, ErrorView>,
) -> bool {
    match reply {
        Err(error) => result == Err::<ChainView<P>, ErrorView>(ErrorView::DatabaseError(error)),
        Ok(None) => result == Err::<ChainView<P>, ErrorView>(ErrorView::ChainNotInitialized),
        Ok(Some(best_chain)) => result is Ok && result->Ok_0.store == store && resumes(
            result->Ok_0,
            acc,
            best_chain@,
            network,
        ),
    }
}

/// What taking up a chain ends in once its accumulator was loaded.
pub open spec fn resumed_with<P: ChainStore>(
    acc: Result<StumpView, Fault>,
    store: P,
    network: Network,
    result: Result<ChainView<P>, ErrorView>,
) -> bool {
    match acc {
        Err(fault) => result == Err::<ChainView<P>, ErrorView>(ErrorView::Fatal(fault)),
        Ok(acc) => exists|reply: Result<Option<BestChain>, StoreError>| #[trigger]
            call_ensures(P::load_height, (&store,), reply) && resumed(
                acc,
                reply,
                store,
                network,
                result,
            ),
    }
}

/// What the blocks at `heights` are, as `store` can have said, as far as they were found.
pub open spec fn reads_hashes<P: ChainStore>(
    store: P,
    heights: Seq<u32>,
    hashes: Seq<BlockHash>,
) -> bool {
    &&& hashes.len() <= heights.len()
    &&& forall|k: int|
        0 <= k < hashes.len() ==> reads_hash(
            store,
            heights[k],
            Ok::<BlockHash, ErrorView>(#[trigger] hashes[k]),
        )
}

/// What asking for a block locator can end in: the blocks at the heights of the locator, or a
/// fault where one of them is not found.
pub open spec fn locates<P: ChainStore>(
    store: P,
    heights: Seq<u32>,
    result: Result<Seq<BlockHash>, ErrorView>,
) -> bool {
    match result {
        Ok(hashes) => hashes.len() == heights.len() && reads_hashes(store, heights, hashes),
        Err(error) => error == ErrorView::Fatal(Fault::MissingBlock) && exists|
            k: int,
            missing: ErrorView,
        |
            0 <= k < heights.len() && #[trigger] reads_hash(
                store,
                heights[k],
                Err::<BlockHash, ErrorView>(missing),
            ),
    }
}

/// The height that is known for the last validated block.
pub open spec fn validation_height(found: Result<DiskBlockHeader, ErrorView>) -> Result<
    u32,
    ErrorView,
> {
    match found {
        Err(error) => Err(error),
        Ok(DiskBlockHeader::HeadersOnly(_, height)) => Ok(height),
        Ok(DiskBlockHeader::FullyValid(_, height)) => Ok(height),
        Ok(DiskBlockHeader::Orphan(_)) => Err(ErrorView::Fatal(Fault::ValidatedOrphan)),
    }
}

/// What saving the best chain ends in.
pub open spec fn saves_height<P: ChainStore>(
    before: ChainView<P>,
    after: ChainView<P>,
    result: Result<(), ErrorView>,
) -> bool {
    exists|reply: Result<(), StoreError>| #[trigger]
        answered(before.store, Event::Height(before.best_block, reply)) && after
            == before.wrote(Event::Height(before.best_block, reply)) && result == stored(reply)
}

/// What telling the store something ends in where it answers so.
pub open spec fn stored(reply: Result<(), StoreError>) -> Result<(), ErrorView> {
    match reply {
        Ok(()) => Ok(()),
        Err(error) => Err(ErrorView::DatabaseError(error)),
    }
}

/// What making the store durable and then saving the best chain ends in.
pub open spec fn makes_durable<P: ChainStore>(
    before: ChainView<P>,
    after: ChainView<P>,
    result: Result<(), ErrorView>,
) -> bool {
    exists|reply: Result<(), StoreError>| #[trigger]
        answered(before.store, Event::Flush(reply)) && {
            let wrote = before.wrote(Event::Flush(reply));
            match reply {
                Err(error) => refuses(wrote, after, ErrorView::DatabaseError(error), result),
                Ok(()) => saves_height(wrote, after, result),
            }
        }
}

/// What flushing ends in: the accumulator is saved, the store is made durable, and the best chain
/// is saved. The first that fails is the last that is tried.
pub open spec fn flushes<P: ChainStore>(
    before: ChainView<P>,
    after: ChainView<P>,
    result: Result<(), ErrorView>,
) -> bool {
    exists|saved: ChainView<P>, reply: Result<(), ErrorView>| #[trigger]
        saves_roots(before, saved, reply) && match reply {
            Err(error) => refuses(saved, after, error, result),
            Ok(()) => makes_durable(saved, after, result),
        }
}

/// The result with the view of its value.
pub open spec fn value_viewed<T: View>(result: Result<T, Fault>) -> Result<T::V, Fault> {
    match result {
        Ok(value) => Ok(value@),
        Err(fault) => Err(fault),
    }
}

/// Which of the fee estimates for one, ten and twenty blocks answers for `target` blocks: the first
/// for exactly one, the second for exactly ten, and else the third.
pub fn fee_estimate_index(target: usize) -> (index: usize)
    ensures
        index == (if target == 1 {
            0int
        } else if target == 10 {
            1
        } else {
            2
        }),
{
    if target == 1 {
        0
    } else if target == 10 {
        1
    } else {
        2
    }
}

/// The accumulator that is loaded where the store answers so.
pub fn acc_from_reply(reply: Result<Option<Vec<u8>>, StoreError>) -> (loaded: Result<Stump, Fault>)
    ensures
        value_viewed(loaded) == loaded_acc(bytes_of(reply)),
{
    match reply {
        Err(_) => Err(Fault::RootsUnreadable),
        Ok(None) => Ok(Stump::new()),
        Ok(Some(bytes)) => match Stump::deserialize(&bytes) {
            Some(acc) => Ok(acc),
            None => Err(Fault::RootsMalformed),
        },
    }
}

impl<PersistedState: ChainStore> ChainState<PersistedState> {
    /// The rules of the chain make sense.
    pub open spec fn wf(self) -> bool {
        self@.chain_params.pow_target_timespan > 0
    }

    /// The leaf that stands for output `vout` of `transaction`, in the block `block_hash` at
    /// `height`.
    pub fn get_leaf_hashes(
        transaction: &Transaction,
        vout: u32,
        height: u32,
        block_hash: BlockHash,
    ) -> (leaf: Hash256)
        requires
            vout < transaction@.output.len(),
        ensures
            leaf == leaf_hash(transaction@, vout, height, block_hash),
    {
        get_leaf_hash(transaction, vout, height, block_hash)
    }

    /// Checks that every input of every transaction but a coinbase spends an output of `utxos`
    /// whose script accepts it, and that no output is spent twice.
    pub fn verify_block_transactions(utxos: UtxoMap, transactions: &Vec<Transaction>) -> (result:
        Result<bool, TransactionError>)
        ensures
            result == transactions_checked(transaction_views(transactions@), utxos@),
    {
        verify_transactions(utxos, transactions)
    }

    /// The target of the next epoch, in compact form, from the first and the last block of this
    /// one.
    pub fn calc_next_work_required(
        last_block: &BlockHeader,
        first_block: &BlockHeader,
        params: ChainParams,
    ) -> (bits: u32)
        requires
            first_block.time <= last_block.time,
            params.pow_target_timespan > 0,
        ensures
            bits as nat == next_bits(*last_block, *first_block, params.pow_target_timespan),
    {
        next_work(last_block, first_block, params)
    }

    /// The target that is required at `now`, in seconds since the Unix epoch, of the block at
    /// `next_height`, which follows `last_block`.
    pub fn get_next_required_work_at(
        &self,
        last_block: &BlockHeader,
        next_height: u32,
        now: u64,
    ) -> (work: Result<Uint256, BlockchainError>)
        requires
            self.wf(),
        ensures
            requires_work(
                self@.store,
                self@.chain_params,
                *last_block,
                next_height,
                now,
                viewed(work),
            ),
    {
        work_at(
            &self.inner.chainstore,
            &self.inner.chain_params,
            last_block,
            next_height,
            now,
        )
    }

    /// The target that is required now of the block at `next_height`, which follows `last_block`.
    pub fn get_next_required_work(&self, last_block: &BlockHeader, next_height: u32) -> (work:
        Result<Uint256, BlockchainError>)
        requires
            self.wf(),
        ensures
            exists|now: u64|
                clock_said(now) && #[trigger] requires_work(
                    self@.store,
                    self@.chain_params,
                    *last_block,
                    next_height,
                    now,
                    viewed(work),
                ),
    {
        let now: u64 = read_clock();
        self.get_next_required_work_at(last_block, next_height, now)
    }

    /// The rules of the network.
    pub fn chain_params(&self) -> (params: ChainParams)
        ensures
            params == self@.chain_params,
    {
        self.inner.chain_params
    }

    /// The accumulator of what can be spent.
    pub fn acc(&self) -> (acc: &Stump)
        ensures
            acc@ == self@.acc,
    {
        &self.inner.acc
    }

    /// The header at a height that is on the chain.
    pub fn get_block_header_by_height(&self, height: u32) -> (found: Result<BlockHeader, Fault>)
        ensures
            reads_header_at(self@.store, height, found),
    {
        header_at(&self.inner.chainstore, height)
    }

    /// The accumulator after a block at `height`: the proof must show that what the block spends
    /// is in it, and then what it spends goes and what it creates comes.
    pub fn update_acc(
        acc: &Stump,
        block: &Block,
        height: u32,
        proof: Proof,
        del_hashes: Vec<Hash256>,
    ) -> (updated: Result<Stump, BlockchainError>)
        requires
            acc@.answers(proof@, del_hashes@),
        ensures
            viewed(updated) == acc_updated(acc@, block@, height, proof@, del_hashes@),
            updated matches Ok(after) ==> after.leafs == acc.leafs + block@.leaves(height).len(),
    {
        updated_acc(acc, block, height, &proof, &del_hashes)
    }

    /// Saves the accumulator.
    pub fn save_acc(&mut self) -> (result: Result<(), BlockchainError>)
        ensures
            saves_roots(old(self)@, final(self)@, seen(result)),
    {
        let bytes = self.inner.acc.serialize();
        let reply = self.inner.chainstore.save_roots(bytes);
        assert(answered(old(self)@.store, Event::Roots(old(self)@.acc.encoded(), reply)));
        match reply {
            Ok(()) => Ok(()),
            Err(_) => Err(BlockchainError::Fatal(Fault::RootsNotSaved)),
        }
    }

    /// A chain at the first block of `network`, whose header is saved.
    pub fn new(chainstore: PersistedState, network: Network) -> (result: Result<
        ChainState<PersistedState>,
        BlockchainError,
    >)
        ensures
            exists|genesis: BlockHeader, reply: Result<(), StoreError>|
                is_genesis(genesis, network) && #[trigger] answered(
                    chainstore,
                    Event::Header(DiskBlockHeader::FullyValid(genesis, 0), 0, reply),
                ) && match result {
                    Ok(state) => reply is Ok && state.wf() && starts_at(state@, genesis, network)
                        && state@.store == chainstore && state@.events == seq![
                        Event::Header(DiskBlockHeader::FullyValid(genesis, 0), 0, reply),
                    ],
                    Err(error) => reply is Err && error@ == ErrorView::Fatal(
                        Fault::GenesisNotSaved,
                    ),
                },
    {
        let genesis = genesis_header(network);
        let hash = genesis.block_hash();
        let mut journal = Journal::new(chainstore);
        let reply = journal.save_header(&DiskBlockHeader::FullyValid(genesis, 0), 0);
        let ghost write = Event::Header(DiskBlockHeader::FullyValid(genesis, 0), 0, reply);
        assert(answered(chainstore, write));
        if reply.is_err() {
            return Err(BlockchainError::Fatal(Fault::GenesisNotSaved));
        }
        let best_block = BestChain {
            best_block: hash,
            depth: 0,
            validation_index: hash,
            rescan_index: None,
            alternative_tips: Vec::new(),
        };
        let state = ChainState {
            inner: ChainStateInner {
                acc: Stump::new(),
                chainstore: journal,
                best_block,
                broadcast_queue: Vec::new(),
                ibd: true,
                chain_params: ChainParams::from(network),
            },
        };
        assert(state@.events =~= seq![write]);
        Ok(state)
    }

    /// The header of `hash` with what is known of its block.
    pub fn get_disk_block_header(&self, hash: &BlockHash) -> (found: Result<
        DiskBlockHeader,
        BlockchainError,
    >)
        ensures
            reads_disk_header(self@.store, *hash, seen(found)),
    {
        disk_header(&self.inner.chainstore, hash)
    }

    /// The accumulator that `data_storage` keeps, or the empty one where it keeps none.
    pub fn load_acc<Storage: ChainStore>(data_storage: &Storage) -> (loaded: Result<Stump, Fault>)
        ensures
            loads_acc(*data_storage, value_viewed(loaded)),
    {
        let reply = data_storage.load_roots();
        assert(call_ensures(Storage::load_roots, (data_storage,), reply));
        acc_from_reply(reply)
    }

    /// Takes up the chain that `chainstore` keeps.
    pub fn load_chain_state(chainstore: PersistedState, network: Network) -> (result: Result<
        ChainState<PersistedState>,
        BlockchainError,
    >)
        ensures
            result matches Ok(state) ==> state.wf(),
            exists|acc: Result<StumpView, Fault>| #[trigger]
                loads_acc(chainstore, acc) && resumed_with(
                    acc,
                    chainstore,
                    network,
                    viewed(result),
                ),
    {
        let loaded = Self::load_acc(&chainstore);
        let ghost acc_seen = value_viewed(loaded);
        assert(loads_acc(chainstore, acc_seen));
        let acc = match loaded {
            Err(fault) => return Err(BlockchainError::Fatal(fault)),
            Ok(acc) => acc,
        };
        let reply = chainstore.load_height();
        let ghost asked = reply;
        assert(call_ensures(PersistedState::load_height, (&chainstore,), asked));
        let best_block = match reply {
            Err(error) => {
                let result = Err(BlockchainError::DatabaseError(error));
                assert(resumed(acc@, asked, chainstore, network, viewed(result)));
                return result;
            },
            Ok(None) => {
                let result = Err(BlockchainError::ChainNotInitialized);
                assert(resumed(acc@, asked, chainstore, network, viewed(result)));
                return result;
            },
            Ok(Some(best_block)) => best_block,
        };
        let ghost acc_view = acc@;
        let state = ChainState {
            inner: ChainStateInner {
                acc,
                chainstore: Journal::new(chainstore),
                best_block,
                broadcast_queue: Vec::new(),
                ibd: true,
                chain_params: ChainParams::from(network),
            },
        };
        assert(resumed(acc_view, asked, chainstore, network, Ok(state@)));
        Ok(state)
    }

    /// Whether the chain is still being downloaded.
    pub fn is_in_idb(&self) -> (answer: bool)
        ensures
            answer == self@.ibd,
    {
        self.inner.ibd
    }

    /// Says whether the chain is still being downloaded.
    pub fn toggle_ibd(&mut self, is_ibd: bool)
        ensures
            final(self)@ == old(self)@.with_ibd(is_ibd),
    {
        self.inner.ibd = is_ibd;
    }

    /// The block at `height`.
    pub fn get_block_hash(&self, height: u32) -> (found: Result<BlockHash, BlockchainError>)
        ensures
            reads_hash(self@.store, height, seen(found)),
    {
        block_at(&self.inner.chainstore, height)
    }

    /// The header of `hash`.
    pub fn get_block_header(&self, hash: &BlockHash) -> (found: Result<
        BlockHeader,
        BlockchainError,
    >)
        ensures
            reads_header(self@.store, *hash, seen(found)),
    {
        crate::lookup::header(&self.inner.chainstore, hash)
    }

    /// The height of the tip.
    pub fn get_height(&self) -> (height: Result<u32, BlockchainError>)
        ensures
            seen(height) == Ok::<u32, ErrorView>(self@.best_block.depth),
    {
        Ok(self.inner.best_block.depth)
    }

    /// The height and the hash of the tip.
    pub fn get_best_block(&self) -> (tip: Result<(u32, BlockHash), BlockchainError>)
        ensures
            seen(tip) == Ok::<(u32, BlockHash), ErrorView>(
                (self@.best_block.depth, self@.best_block.best_block),
            ),
    {
        Ok((self.inner.best_block.depth, self.inner.best_block.best_block))
    }

    /// Queues a transaction to be sent to peers.
    pub fn broadcast(&mut self, tx: &Transaction) -> (result: Result<(), BlockchainError>)
        ensures
            result is Ok,
            final(self)@ == old(self)@.queueing(tx@),
    {
        let copy = tx.clone();
        let ghost queue = self.inner.broadcast_queue@;
        self.inner.broadcast_queue.push(copy);
        assert(transaction_views(self.inner.broadcast_queue@) =~= transaction_views(queue).push(
            tx@,
        ));
        Ok(())
    }

    /// Takes all transactions that are queued to be sent to peers, oldest first.
    pub fn get_unbroadcasted(&mut self) -> (transactions: Vec<Transaction>)
        ensures
            transaction_views(transactions@) == old(self)@.broadcast_queue,
            final(self)@ == old(self)@.unqueued(),
    {
        let mut transactions: Vec<Transaction> = Vec::new();
        transactions.append(&mut self.inner.broadcast_queue);
        assert(transaction_views(transactions@) =~= old(self)@.broadcast_queue);
        assert(transaction_views(self.inner.broadcast_queue@) =~= seq![]);
        transactions
    }

    /// Takes all notifications that are to be sent, oldest first.
    pub fn take_notifications(&mut self) -> (notifications: Vec<Notification>)
        ensures
            notification_views(notifications@) == old(self)@.notifications,
            final(self)@ == old(self)@.unnotified(),
    {
        self.inner.chainstore.take_outbox()
    }

    /// Blocks that tell a peer which chain this is, from the tip down to the first block.
    pub fn get_block_locator(&self) -> (locator: Result<Vec<BlockHash>, BlockchainError>)
        ensures
            exists|heights: Seq<u32>| #[trigger]
                is_locator(self@.best_block.depth, heights) && locates(
                    self@.store,
                    heights,
                    viewed(locator),
                ),
    {
        let heights = locator_heights(self.inner.best_block.depth);
        let mut hashes: Vec<BlockHash> = Vec::new();
        let mut i: usize = 0;
        while i < heights.len()
            invariant
                i <= heights@.len(),
                hashes@.len() == i,
                is_locator(self@.best_block.depth, heights@),
                reads_hashes(self@.store, heights@, hashes@),
            decreases heights@.len() - i,
        {
            let found = self.get_block_hash(heights[i]);
            let ghost found_seen = seen(found);
            assert(reads_hash(self@.store, heights@[i as int], found_seen));
            match found {
                Err(_) => {
                    assert(found_seen is Err);
                    assert(locates(
                        self@.store,
                        heights@,
                        Err(ErrorView::Fatal(Fault::MissingBlock)),
                    )) by {
                        let missing = found_seen->Err_0;
                        assert(reads_hash(
                            self@.store,
                            heights@[i as int],
                            Err::<BlockHash, ErrorView>(missing),
                        ));
                    }
                    return Err(BlockchainError::Fatal(Fault::MissingBlock));
                },
                Ok(hash) => {
                    let ghost before = hashes@;
                    hashes.push(hash);
                    assert forall|k: int| 0 <= k < hashes@.len() implies reads_hash(
                        self@.store,
                        heights@[k],
                        Ok::<BlockHash, ErrorView>(#[trigger] hashes@[k]),
                    ) by {
                        if k < before.len() {
                            assert(hashes@[k] == before[k]);
                        }
                    }
                },
            }
            i += 1;
        }
        Ok(hashes)
    }

    /// The height of the last block that was validated.
    pub fn get_validation_index(&self) -> (height: Result<u32, BlockchainError>)
        ensures
            exists|found: Result<DiskBlockHeader, ErrorView>| #[trigger]
                reads_disk_header(self@.store, self@.best_block.validation_index, found) && seen(
                    height,
                ) == validation_height(found),
    {
        let found = self.get_disk_block_header(&self.inner.best_block.validation_index);
        let ghost found_seen = seen(found);
        assert(reads_disk_header(self@.store, self@.best_block.validation_index, found_seen));
        match found {
            Err(error) => Err(error),
            Ok(DiskBlockHeader::HeadersOnly(_, height)) => Ok(height),
            Ok(DiskBlockHeader::FullyValid(_, height)) => Ok(height),
            Ok(DiskBlockHeader::Orphan(_)) => Err(BlockchainError::Fatal(Fault::ValidatedOrphan)),
        }
    }

    /// Makes all checks on a block and changes nothing. `inputs` are the outputs that it may
    /// spend, `del_hashes` are their leaves, and `proof` shows that these are in the accumulator.
    /// Those who listen are told what the outcome says before it is given to `commit_block`.
    pub fn prepare_block(
        &self,
        block: &Block,
        proof: Proof,
        inputs: UtxoMap,
        del_hashes: Vec<Hash256>,
    ) -> (prepared: Result<Prepared, BlockchainError>)
        requires
            self.wf(),
        ensures
            prepares(
                self@,
                Candidate { block: block@, proof: proof@, inputs: inputs@, deleted: del_hashes@ },
                viewed(prepared),
            ),
            prepared matches Ok(outcome) ==> outcome.grows(self@.acc),
    {
        let ghost candidate = Candidate {
            block: block@,
            proof: proof@,
            inputs: inputs@,
            deleted: del_hashes@,
        };
        let hash = block.block_hash();
        let found = self.get_disk_block_header(&hash);
        let ghost found_seen = seen(found);
        let prepared = match found {
            Err(error) => Err(error),
            Ok(DiskBlockHeader::FullyValid(_, _)) => Ok(Prepared { step: Step::Validated(hash) }),
            Ok(DiskBlockHeader::Orphan(_)) => Ok(Prepared { step: Step::Orphan }),
            Ok(DiskBlockHeader::HeadersOnly(_, height)) => self.prepare_at(
                block,
                height,
                proof,
                inputs,
                del_hashes,
            ),
        };
        assert(reads_disk_header(
            self@.store,
            block_hash_of(candidate.block.header),
            found_seen,
        ));
        assert(prepares_found(self@, candidate, found_seen, viewed(prepared)));
        assert(prepares(self@, candidate, viewed(prepared)));
        prepared
    }

    /// Makes all checks on a block whose header is known, at `height`.
    fn prepare_at(
        &self,
        block: &Block,
        height: u32,
        proof: Proof,
        inputs: UtxoMap,
        del_hashes: Vec<Hash256>,
    ) -> (prepared: Result<Prepared, BlockchainError>)
        requires
            self.wf(),
        ensures
            prepares_at(
                self@,
                Candidate { block: block@, proof: proof@, inputs: inputs@, deleted: del_hashes@ },
                height,
                viewed(prepared),
            ),
            prepared matches Ok(outcome) ==> outcome.grows(self@.acc),
    {
        let ghost candidate = Candidate {
            block: block@,
            proof: proof@,
            inputs: inputs@,
            deleted: del_hashes@,
        };
        if !self.inner.acc.answers(&proof, &del_hashes) {
            return Err(BlockchainError::Fatal(Fault::PositionOverflow));
        }
        let index = self.inner.best_block.validation_index;
        let acc = match check_block(
            &self.inner.acc,
            block,
            height,
            &proof,
            &del_hashes,
            &index,
        ) {
            Err(error) => return Err(error),
            Ok(acc) => acc,
        };
        let ghost acc_view = acc@;
        let found = self.get_block_header(&index);
        let ghost parent_seen = seen(found);
        let prepared = match found {
            Err(error) => Err(error),
            Ok(parent) => {
                let required = self.get_next_required_work(&parent, height);
                let ghost work = viewed(required);
                let checked = match required {
                    Err(error) => Err(error),
                    Ok(target) => check_contents(block, &target, inputs),
                };
                let prepared = match checked {
                    Err(error) => Err(error),
                    Ok(hash) => Ok(
                        Prepared {
                            step: Step::Valid(ValidBlock { block: block.clone(), height, hash, acc }),
                        },
                    ),
                };
                let ghost now = choose|now: u64|
                    clock_said(now) && #[trigger] requires_work(
                        self@.store,
                        self@.chain_params,
                        parent,
                        height,
                        now,
                        work,
                    );
                assert(requires_work(
                    self@.store,
                    self@.chain_params,
                    parent,
                    height,
                    now,
                    work,
                ));
                assert(viewed(prepared) == prepared_with_work(candidate, height, acc_view, work));
                assert(prepares_after(
                    self@,
                    candidate,
                    height,
                    acc_view,
                    parent,
                    viewed(prepared),
                ));
                prepared
            },
        };
        assert(reads_header(self@.store, index, parent_seen));
        assert(prepares_with_parent(
            self@,
            candidate,
            height,
            acc_view,
            parent_seen,
            viewed(prepared),
        ));
        assert(prepares_with(self@, candidate, height, acc_view, viewed(prepared)));
        prepared
    }

    /// Carries out what the checks on a block led to: a valid block is taken into the chain.
    pub fn commit_block(&mut self, prepared: Prepared) -> (result: Result<(), BlockchainError>)
        ensures
            commits(old(self)@, final(self)@, prepared@, seen(result)),
            final(self)@.acc == old(self)@.acc || (prepared@ is Valid && final(self)@.acc
                == prepared@->Valid_0.acc),
    {
        match prepared.step {
            Step::Validated(hash) => {
                self.inner.best_block.valid_block(hash);
                assert(self@ == old(self)@.validated(hash, old(self)@.acc));
                Ok(())
            },
            Step::Orphan => Ok(()),
            Step::Valid(valid) => self.commit_valid(valid),
        }
    }

    /// Takes a valid block into the chain.
    fn commit_valid(&mut self, valid: ValidBlock) -> (result: Result<(), BlockchainError>)
        ensures
            commits_valid(old(self)@, final(self)@, valid@, seen(result)),
            final(self)@.acc == old(self)@.acc || final(self)@.acc == valid@.acc,
    {
        let ghost start = self@;
        let ValidBlock { block, height, hash, acc } = valid;
        let header = DiskBlockHeader::FullyValid(block.header, height);
        let reply = self.inner.chainstore.save_header(&header, height);
        let ghost header_reply = reply;
        assert(answered(start.store, Event::Header(header, height, header_reply)));
        let ghost with_header = self@;
        assert(with_header == start.wrote(Event::Header(header, height, header_reply)));
        match reply {
            Err(error) => return Err(BlockchainError::DatabaseError(error)),
            Ok(()) => {},
        }
        let reply = self.inner.chainstore.save_height(&self.inner.best_block);
        let ghost height_reply = reply;
        assert(answered(with_header.store, Event::Height(with_header.best_block, height_reply)));
        let ghost with_height = self@;
        assert(with_height == with_header.wrote(
            Event::Height(with_header.best_block, height_reply),
        ));
        match reply {
            Err(error) => {
                let result = Err(BlockchainError::DatabaseError(error));
                assert(commits_height(with_header, self@, hash, acc@, seen(result)));
                return result;
            },
            Ok(()) => {},
        }
        let ghost acc_view = acc@;
        self.inner.acc = acc;
        self.inner.best_block.valid_block(hash);
        assert(self@ == with_height.validated(hash, acc_view));
        let result = self.save_acc();
        assert(commits_height(with_header, self@, hash, acc_view, seen(result)));
        result
    }

    /// Makes all checks on a block and takes it into the chain where it is valid. The notification
    /// goes out before the store is told anything, and waits in the chain to be sent. Whoever wants
    /// to send it before the store is told calls `prepare_block` and `commit_block` instead.
    pub fn connect_block(
        &mut self,
        block: &Block,
        proof: Proof,
        inputs: UtxoMap,
        del_hashes: Vec<Hash256>,
    ) -> (result: Result<(), BlockchainError>)
        requires
            old(self).wf(),
        ensures
            final(self).wf(),
            connects(
                old(self)@,
                final(self)@,
                Candidate { block: block@, proof: proof@, inputs: inputs@, deleted: del_hashes@ },
                seen(result),
            ),
            final(self)@.acc == old(self)@.acc || exists|height: u32|
                final(self)@.acc.leafs == old(self)@.acc.leafs + #[trigger] block@.leaves(
                    height,
                ).len(),
    {
        let ghost candidate = Candidate {
            block: block@,
            proof: proof@,
            inputs: inputs@,
            deleted: del_hashes@,
        };
        let outcome = self.prepare_block(block, proof, inputs, del_hashes);
        let ghost outcome_seen = viewed(outcome);
        assert(prepares(old(self)@, candidate, outcome_seen));
        match outcome {
            Err(error) => {
                let result = Err(error);
                assert(connects_prepared(old(self)@, self@, outcome_seen, seen(result)));
                result
            },
            Ok(prepared) => {
                let ghost growing = prepared;
                match prepared.notification() {
                    Some(notification) => {
                        let ghost told = notification@;
                        self.inner.chainstore.notify(notification);
                        assert(self@ == old(self)@.notifying(told));
                    },
                    None => {},
                }
                let result = self.commit_block(prepared);
                assert(connects_prepared(old(self)@, self@, outcome_seen, seen(result)));
                proof {
                    lemma_prepared_block(old(self)@, candidate, outcome_seen);
                    if self@.acc != old(self)@.acc {
                        assert(growing.grows(old(self)@.acc));
                        let valid = growing@->Valid_0;
                        assert(self@.acc.leafs == old(self)@.acc.leafs + block@.leaves(
                            valid.height,
                        ).len());
                    }
                }
                result
            },
        }
    }

    /// Saves the accumulator, makes the store durable, and saves the best chain.
    pub fn flush(&mut self) -> (result: Result<(), BlockchainError>)
        ensures
            flushes(old(self)@, final(self)@, seen(result)),
    {
        let saved = self.save_acc();
        let ghost saved_view = self@;
        let ghost saved_seen = seen(saved);
        assert(saves_roots(old(self)@, saved_view, saved_seen));
        match saved {
            Err(error) => return Err(error),
            Ok(()) => {},
        }
        let reply = self.inner.chainstore.flush();
        let ghost flush_reply = reply;
        assert(answered(saved_view.store, Event::Flush(flush_reply)));
        let ghost durable = self@;
        assert(durable == saved_view.wrote(Event::Flush(flush_reply)));
        match reply {
            Err(error) => {
                let result = Err(BlockchainError::DatabaseError(error));
                assert(makes_durable(saved_view, self@, seen(result)));
                return result;
            },
            Ok(()) => {},
        }
        let reply = self.inner.chainstore.save_height(&self.inner.best_block);
        let ghost height_reply = reply;
        assert(answered(durable.store, Event::Height(durable.best_block, height_reply)));
        assert(self@ == durable.wrote(Event::Height(durable.best_block, height_reply)));
        let result = match reply {
            Err(error) => Err(BlockchainError::DatabaseError(error)),
            Ok(()) => Ok(()),
        };
        assert(saves_height(durable, self@, seen(result)));
        assert(makes_durable(saved_view, self@, seen(result)));
        result
    }

    /// Takes a header for the next one of the chain, unless it is known. It must follow the tip
    /// and have the work that is required.
    pub fn accept_header(&mut self, header: BlockHeader) -> (result: Result<(), BlockchainError>)
        requires
            old(self).wf(),
        ensures
            final(self).wf(),
            accepts(old(self)@, final(self)@, header, seen(result)),
    {
        let found = self.get_block_header(&header.block_hash());
        let ghost found_seen = seen(found);
        assert(reads_header(old(self)@.store, block_hash_of(header), found_seen));
        if found.is_ok() {
            assert(accepts_found(old(self)@, self@, header, found_seen, Ok(())));
            return Ok(());
        }
        let tip = self.inner.best_block.best_block;
        if header.prev_blockhash != tip {
            let result = Err(BlockchainError::Fatal(Fault::ForkHeader));
            assert(accepts_found(old(self)@, self@, header, found_seen, seen(result)));
            return result;
        }
        if self.inner.best_block.depth == u32::MAX {
            let result = Err(BlockchainError::Fatal(Fault::HeightExhausted));
            assert(accepts_found(old(self)@, self@, header, found_seen, seen(result)));
            return result;
        }
        let height: u32 = self.inner.best_block.depth + 1;
        let parent = self.get_block_header(&tip);
        let ghost parent_seen = seen(parent);
        assert(reads_header(old(self)@.store, tip, parent_seen));
        let result = match parent {
            Err(error) => Err(error),
            Ok(parent) => self.extend_tip(header, height, &parent),
        };
        assert(accepts_after(old(self)@, self@, header, height, parent_seen, seen(result)));
        assert(accepts_found(old(self)@, self@, header, found_seen, seen(result)));
        result
    }

    /// Makes `header`, which follows the tip `parent`, the tip at `height`.
    fn extend_tip(&mut self, header: BlockHeader, height: u32, parent: &BlockHeader) -> (result:
        Result<(), BlockchainError>)
        requires
            old(self).wf(),
        ensures
            final(self).wf(),
            accepts_after(
                old(self)@,
                final(self)@,
                header,
                height,
                Ok::<BlockHeader, ErrorView>(*parent),
                seen(result),
            ),
    {
        let required = self.get_next_required_work(parent, height);
        let ghost work = viewed(required);
        let ghost now = choose|now: u64|
            clock_said(now) && #[trigger] requires_work(
                old(self)@.store,
                old(self)@.chain_params,
                *parent,
                height,
                now,
                work,
            );
        assert(requires_work(
            old(self)@.store,
            old(self)@.chain_params,
            *parent,
            height,
            now,
            work,
        ));
        let target = match required {
            Err(error) => {
                let result = Err(error);
                assert(accepts_with_work(
                    old(self)@,
                    self@,
                    header,
                    height,
                    work,
                    seen(result),
                ));
                return result;
            },
            Ok(target) => target,
        };
        let hash = match check_work(&header, &target) {
            Err(error) => {
                let result = Err(error);
                assert(accepts_with_work(
                    old(self)@,
                    self@,
                    header,
                    height,
                    work,
                    seen(result),
                ));
                return result;
            },
            Ok(hash) => hash,
        };
        let disk = DiskBlockHeader::HeadersOnly(header, height);
        let reply = self.inner.chainstore.save_header(&disk, height);
        let ghost header_reply = reply;
        assert(answered(old(self)@.store, Event::Header(disk, height, header_reply)));
        assert(self@ == old(self)@.wrote(Event::Header(disk, height, header_reply)));
        let result = match reply {
            Err(error) => Err(BlockchainError::DatabaseError(error)),
            Ok(()) => {
                self.inner.best_block.new_block(hash, height);
                Ok(())
            },
        };
        assert(extends_tip(old(self)@, self@, header, height, hash, seen(result)));
        assert(accepts_with_work(old(self)@, self@, header, height, work, seen(result)));
        result
    }
}

} // verus!
