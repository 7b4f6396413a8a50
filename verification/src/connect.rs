//! What happens to a block that is to be connected.

use vstd::prelude::*;

use crate::accumulator::{Proof, ProofView, Stump, StumpView};
use crate::best_chain::BestChainView;
use crate::error::{seen, viewed, BlockValidationErrors, BlockchainError, ErrorView, Fault};
use crate::error::StoreError;
use crate::hash::{BlockHash, Hash256};
use crate::leaf::block_leaves;
use crate::lookup::{reads_disk_header, reads_header, requires_work};
use crate::notification::NotificationView;
use crate::params::ChainParams;
use crate::pow::clock_said;
use crate::primitives::{block_hash_of, witness_committed};
use crate::primitives::{Block, BlockHeader, BlockView, OutPoint, TransactionView, TxOutView};
use crate::store::{answered, ChainStore, DiskBlockHeader, Event};
use crate::uint::Uint256;
use crate::utxo::{transactions_checked, verify_transactions, UtxoMap};

verus! {

/// The state of a chain, and all that went out from it, in order.
#[verifier::ext_equal]
pub struct ChainView<P> {
    pub acc: StumpView,
    pub best_block: BestChainView,
    pub broadcast_queue: Seq<TransactionView>,
    pub notifications: Seq<NotificationView>,
    pub ibd: bool,
    pub chain_params: ChainParams,
    pub store: P,
    pub events: Seq<Event>,
}

impl<P: ChainStore> ChainView<P> {
    /// The same chain, after its store was told `write`.
    pub open spec fn wrote(self, write: Event) -> ChainView<P> {
        ChainView { events: self.events.push(write), ..self }
    }

    /// The same chain, after `notification` went out to wait for being sent.
    pub open spec fn notifying(self, notification: NotificationView) -> ChainView<P> {
        ChainView {
            notifications: self.notifications.push(notification),
            events: self.events.push(Event::Notify(notification)),
            ..self
        }
    }

    /// The same chain, with one more transaction to be sent to peers.
    pub open spec fn queueing(self, transaction: TransactionView) -> ChainView<P> {
        ChainView { broadcast_queue: self.broadcast_queue.push(transaction), ..self }
    }

    /// The same chain, with no transactions to be sent to peers.
    pub open spec fn unqueued(self) -> ChainView<P> {
        ChainView { broadcast_queue: seq![], ..self }
    }

    /// The same chain, with no notifications to be sent.
    pub open spec fn unnotified(self) -> ChainView<P> {
        ChainView { notifications: seq![], ..self }
    }

    /// The same chain, with what is said of its download.
    pub open spec fn with_ibd(self, ibd: bool) -> ChainView<P> {
        ChainView { ibd, ..self }
    }

    /// The same chain, validated up to the block `hash`, with the accumulator `acc`.
    pub open spec fn validated(self, hash: BlockHash, acc: StumpView) -> ChainView<P> {
        ChainView { acc, best_block: self.best_block.validated_to(hash), ..self }
    }
}

/// The accumulator after a block: the proof must show that what the block spends is in it, and
/// then what it spends goes and what it creates comes.
pub open spec fn acc_updated(
    acc: StumpView,
    block: BlockView,
    height: u32,
    proof: ProofView,
    deleted: Seq<Hash256>,
) -> Result<StumpView, ErrorView> {
    match acc.checked(proof, deleted) {
        Err(text) => Err(ErrorView::UtreexoError(text)),
        Ok(false) => Err(ErrorView::InvalidProof),
        Ok(true) => match acc.modified(block.leaves(height), deleted, proof) {
            Err(text) => Err(ErrorView::UtreexoError(text)),
            Ok(after) => Ok(after),
        },
    }
}

/// The accumulator after a block.
pub fn updated_acc(
    acc: &Stump,
    block: &Block,
    height: u32,
    proof: &Proof,
    del_hashes: &Vec<Hash256>,
) -> (updated: Result<Stump, BlockchainError>)
    requires
        acc@.answers(proof@, del_hashes@),
    ensures
        viewed(updated) == acc_updated(acc@, block@, height, proof@, del_hashes@),
        updated matches Ok(after) ==> after.leafs == acc.leafs + block@.leaves(height).len(),
{
    match acc.verify(proof, del_hashes) {
        Err(text) => return Err(BlockchainError::UtreexoError(text)),
        Ok(valid) => if !valid {
            return Err(BlockchainError::InvalidProof);
        },
    }
    let leaves = block_leaves(block, height);
    match acc.modify(&leaves, del_hashes, proof) {
        Err(text) => Err(BlockchainError::UtreexoError(text)),
        Ok(after) => Ok(after),
    }
}

pub open spec fn invalid(what: BlockValidationErrors) -> ErrorView {
    ErrorView::BlockValidationError(what)
}

/// What checking a block before its parent is looked up ends in: the accumulator after it, or why
/// it is refused. The accumulator is asked first, then the merkle root, then the witness
/// commitment, and at last whether the block follows `parent`.
pub open spec fn block_checked(
    acc: StumpView,
    block: BlockView,
    height: u32,
    proof: ProofView,
    deleted: Seq<Hash256>,
    parent: BlockHash,
) -> Result<StumpView, ErrorView> {
    match acc_updated(acc, block, height, proof, deleted) {
        Err(error) => Err(error),
        Ok(after) => if !block.merkle_root_matches() {
            Err(invalid(BlockValidationErrors::BadMerkleRoot))
        } else if !witness_committed(block.txdata) {
            Err(invalid(BlockValidationErrors::BadWitnessCommitment))
        } else if block.header.prev_blockhash != parent {
            Err(invalid(BlockValidationErrors::PrevBlockNotFound(block.header.prev_blockhash)))
        } else {
            Ok(after)
        },
    }
}

/// Checks a block before its parent is looked up.
pub fn check_block(
    acc: &Stump,
    block: &Block,
    height: u32,
    proof: &Proof,
    del_hashes: &Vec<Hash256>,
    parent: &BlockHash,
) -> (checked: Result<Stump, BlockchainError>)
    requires
        acc@.answers(proof@, del_hashes@),
    ensures
        viewed(checked) == block_checked(acc@, block@, height, proof@, del_hashes@, *parent),
        checked matches Ok(after) ==> after.leafs == acc.leafs + block@.leaves(height).len(),
{
    let updated = match updated_acc(acc, block, height, proof, del_hashes) {
        Err(error) => return Err(error),
        Ok(updated) => updated,
    };
    if !block.check_merkle_root() {
        return Err(BlockchainError::BlockValidationError(BlockValidationErrors::BadMerkleRoot));
    }
    if !block.check_witness_commitment() {
        return Err(
            BlockchainError::BlockValidationError(BlockValidationErrors::BadWitnessCommitment),
        );
    }
    let prev_blockhash = block.header.prev_blockhash;
    if prev_blockhash != *parent {
        return Err(
            BlockchainError::BlockValidationError(
                BlockValidationErrors::PrevBlockNotFound(prev_blockhash),
            ),
        );
    }
    Ok(updated)
}

/// What checking the proof of work of `header` against the required target ends in.
pub open spec fn work_checked(header: BlockHeader, target: nat) -> Result<BlockHash, ErrorView> {
    if header.meets(target) {
        Ok(block_hash_of(header))
    } else {
        Err(invalid(BlockValidationErrors::NotEnoughPow))
    }
}

/// Checks the proof of work of `header` and returns the hash of its block.
pub fn check_work(header: &BlockHeader, target: &Uint256) -> (checked: Result<
    BlockHash,
    BlockchainError,
>)
    ensures
        seen(checked) == work_checked(*header, target@),
{
    match header.validate_pow(target) {
        Some(hash) => Ok(hash),
        None => Err(BlockchainError::BlockValidationError(BlockValidationErrors::NotEnoughPow)),
    }
}

/// What checking a block against the required target and the outputs that it may spend ends in.
pub open spec fn contents_checked(
    block: BlockView,
    target: nat,
    utxos: Map<OutPoint, TxOutView>,
) -> Result<BlockHash, ErrorView> {
    match work_checked(block.header, target) {
        Err(error) => Err(error),
        Ok(hash) => match transactions_checked(block.txdata, utxos) {
            Ok(_) => Ok(hash),
            Err(_) => Err(invalid(BlockValidationErrors::InvalidTx)),
        },
    }
}

/// Checks a block against the required target and the outputs that it may spend. Returns its hash.
pub fn check_contents(block: &Block, target: &Uint256, inputs: UtxoMap) -> (checked: Result<
    BlockHash,
    BlockchainError,
>)
    ensures
        seen(checked) == contents_checked(block@, target@, inputs@),
{
    let hash = match check_work(&block.header, target) {
        Err(error) => return Err(error),
        Ok(hash) => hash,
    };
    match verify_transactions(inputs, &block.txdata) {
        Ok(_) => Ok(hash),
        Err(_) => Err(BlockchainError::BlockValidationError(BlockValidationErrors::InvalidTx)),
    }
}

/// A request that is refused for `error` and changes nothing.
pub open spec fn refuses<P: ChainStore>(
    before: ChainView<P>,
    after: ChainView<P>,
    error: ErrorView,
    result: Result<(), ErrorView>,
) -> bool {
    after == before && result == Err::<(), ErrorView>(error)
}

/// What saving the accumulator ends in: the store is told, and must take it.
pub open spec fn saves_roots<P: ChainStore>(
    before: ChainView<P>,
    after: ChainView<P>,
    result: Result<(), ErrorView>,
) -> bool {
    exists|reply: Result<(), StoreError>| #[trigger]
        answered(before.store, Event::Roots(before.acc.encoded(), reply)) && after
            == before.wrote(Event::Roots(before.acc.encoded(), reply)) && result
            == roots_saved(reply)
}

/// What saving the accumulator ends in, where the store answers so.
pub open spec fn roots_saved(reply: Result<(), StoreError>) -> Result<(), ErrorView> {
    match reply {
        Ok(()) => Ok(()),
        Err(_) => Err(ErrorView::Fatal(Fault::RootsNotSaved)),
    }
}

/// The last part of connecting a valid block, after its header was saved: the best chain is saved
/// as it was before, then the block counts as validated, and the accumulator is saved.
pub open spec fn commits_height<P: ChainStore>(
    before: ChainView<P>,
    after: ChainView<P>,
    hash: BlockHash,
    acc: StumpView,
    result: Result<(), ErrorView>,
) -> bool {
    exists|reply: Result<(), StoreError>| #[trigger]
        answered(before.store, Event::Height(before.best_block, reply)) && {
            let wrote = before.wrote(Event::Height(before.best_block, reply));
            match reply {
                Err(error) => refuses(wrote, after, ErrorView::DatabaseError(error), result),
                Ok(()) => saves_roots(wrote.validated(hash, acc), after, result),
            }
        }
}

/// A block that passed all checks, with its height, its hash and the accumulator after it.
pub struct ValidBlockView {
    pub block: BlockView,
    pub height: u32,
    pub hash: BlockHash,
    pub acc: StumpView,
}

/// What the checks on a block lead to.
pub enum PreparedView {
    /// The block was validated before: it counts as the last validated one.
    Validated(BlockHash),
    /// The block is not on the chain: nothing is done.
    Orphan,
    /// The block is valid: it is taken into the chain.
    Valid(ValidBlockView),
}

impl PreparedView {
    /// What those who listen are told before the block is taken into the chain.
    pub open spec fn notification(self) -> Option<NotificationView> {
        match self {
            PreparedView::Valid(valid) => Some(
                NotificationView::NewBlock(valid.block, valid.height),
            ),
            _ => None,
        }
    }
}

/// What taking a valid block into the chain ends in: the header is saved as validated, and then
/// the rest.
pub open spec fn commits_valid<P: ChainStore>(
    before: ChainView<P>,
    after: ChainView<P>,
    valid: ValidBlockView,
    result: Result<(), ErrorView>,
) -> bool {
    let header = DiskBlockHeader::FullyValid(valid.block.header, valid.height);
    exists|reply: Result<(), StoreError>| #[trigger]
        answered(before.store, Event::Header(header, valid.height, reply)) && {
            let wrote = before.wrote(Event::Header(header, valid.height, reply));
            match reply {
                Err(error) => refuses(wrote, after, ErrorView::DatabaseError(error), result),
                Ok(()) => commits_height(wrote, after, valid.hash, valid.acc, result),
            }
        }
}

/// What carrying out what the checks on a block led to ends in.
pub open spec fn commits<P: ChainStore>(
    before: ChainView<P>,
    after: ChainView<P>,
    prepared: PreparedView,
    result: Result<(), ErrorView>,
) -> bool {
    match prepared {
        PreparedView::Validated(hash) => result is Ok && after == before.validated(
            hash,
            before.acc,
        ),
        PreparedView::Orphan => result is Ok && after == before,
        PreparedView::Valid(valid) => commits_valid(before, after, valid, result),
    }
}

/// A block that is to be connected, with what comes with it.
pub struct Candidate {
    pub block: BlockView,
    pub proof: ProofView,
    pub inputs: Map<OutPoint, TxOutView>,
    pub deleted: Seq<Hash256>,
}

/// What the checks on a block lead to once the required target is known.
pub open spec fn prepared_with_work(
    candidate: Candidate,
    height: u32,
    acc: StumpView,
    work: Result<nat, ErrorView>,
) -> Result<PreparedView, ErrorView> {
    match work {
        Err(error) => Err(error),
        Ok(target) => match contents_checked(candidate.block, target, candidate.inputs) {
            Err(error) => Err(error),
            Ok(hash) => Ok(
                PreparedView::Valid(ValidBlockView { block: candidate.block, height, hash, acc }),
            ),
        },
    }
}

/// What the checks on a block that follows `parent` can lead to, at the time that the clock says.
pub open spec fn prepares_after<P: ChainStore>(
    state: ChainView<P>,
    candidate: Candidate,
    height: u32,
    acc: StumpView,
    parent: BlockHeader,
    result: Result<PreparedView, ErrorView>,
) -> bool {
    exists|now: u64, work: Result<nat, ErrorView>|
        clock_said(now) && #[trigger] requires_work(
            state.store,
            state.chain_params,
            parent,
            height,
            now,
            work,
        ) && result == prepared_with_work(candidate, height, acc, work)
}

/// What the checks on a block can lead to once its parent was looked up.
pub open spec fn prepares_with_parent<P: ChainStore>(
    state: ChainView<P>,
    candidate: Candidate,
    height: u32,
    acc: StumpView,
    parent: Result<BlockHeader, ErrorView>,
    result: Result<PreparedView, ErrorView>,
) -> bool {
    match parent {
        Err(error) => result == Err::<PreparedView, ErrorView>(error),
        Ok(header) => prepares_after(state, candidate, height, acc, header, result),
    }
}

/// What the checks on a block can lead to once those that need nothing from the store ended in
/// `checked`.
pub open spec fn prepares_checked<P: ChainStore>(
    state: ChainView<P>,
    candidate: Candidate,
    height: u32,
    checked: Result<StumpView, ErrorView>,
    result: Result<PreparedView, ErrorView>,
) -> bool {
    match checked {
        Err(error) => result == Err::<PreparedView, ErrorView>(error),
        Ok(acc) => prepares_with(state, candidate, height, acc, result),
    }
}

/// What the checks on a block can lead to once its parent is to be looked up.
pub open spec fn prepares_with<P: ChainStore>(
    state: ChainView<P>,
    candidate: Candidate,
    height: u32,
    acc: StumpView,
    result: Result<PreparedView, ErrorView>,
) -> bool {
    exists|parent: Result<BlockHeader, ErrorView>| #[trigger]
        reads_header(state.store, state.best_block.validation_index, parent)
            && prepares_with_parent(state, candidate, height, acc, parent, result)
}

/// What the checks on a block can lead to whose header is known, at `height`, and was not
/// validated yet. It must be possible to tell without overflow if its proof holds.
pub open spec fn prepares_at<P: ChainStore>(
    state: ChainView<P>,
    candidate: Candidate,
    height: u32,
    result: Result<PreparedView, ErrorView>,
) -> bool {
    if !state.acc.answers(candidate.proof, candidate.deleted) {
        result == Err::<PreparedView, ErrorView>(ErrorView::Fatal(Fault::PositionOverflow))
    } else {
        prepares_checked(
            state,
            candidate,
            height,
            block_checked(
                state.acc,
                candidate.block,
                height,
                candidate.proof,
                candidate.deleted,
                state.best_block.validation_index,
            ),
            result,
        )
    }
}

/// What the checks on a block can lead to once its header was looked up: an unknown block is
/// refused, and only one that is on the chain and was not validated yet needs more checks.
pub open spec fn prepares_found<P: ChainStore>(
    state: ChainView<P>,
    candidate: Candidate,
    found: Result<DiskBlockHeader, ErrorView>,
    result: Result<PreparedView, ErrorView>,
) -> bool {
    match found {
        Err(error) => result == Err::<PreparedView, ErrorView>(error),
        Ok(DiskBlockHeader::FullyValid(_, _)) => result == Ok::<PreparedView, ErrorView>(
            PreparedView::Validated(block_hash_of(candidate.block.header)),
        ),
        Ok(DiskBlockHeader::Orphan(_)) => result == Ok::<PreparedView, ErrorView>(
            PreparedView::Orphan,
        ),
        Ok(DiskBlockHeader::HeadersOnly(_, height)) => prepares_at(
            state,
            candidate,
            height,
            result,
        ),
    }
}

/// What the checks on a block can lead to.
pub open spec fn prepares<P: ChainStore>(
    state: ChainView<P>,
    candidate: Candidate,
    result: Result<PreparedView, ErrorView>,
) -> bool {
    exists|found: Result<DiskBlockHeader, ErrorView>| #[trigger]
        reads_disk_header(state.store, block_hash_of(candidate.block.header), found)
            && prepares_found(state, candidate, found, result)
}

/// What connecting a block ends in once the checks on it are made: a block that is refused changes
/// nothing. For another one the notification goes out first, if there is one, and then what the
/// checks led to is carried out.
pub open spec fn connects_prepared<P: ChainStore>(
    before: ChainView<P>,
    after: ChainView<P>,
    prepared: Result<PreparedView, ErrorView>,
    result: Result<(), ErrorView>,
) -> bool {
    match prepared {
        Err(error) => refuses(before, after, error, result),
        Ok(prepared) => match prepared.notification() {
            None => commits(before, after, prepared, result),
            Some(notification) => commits(before.notifying(notification), after, prepared, result),
        },
    }
}

/// What connecting a block can end in: the state `after` and `result`.
pub open spec fn connects<P: ChainStore>(
    before: ChainView<P>,
    after: ChainView<P>,
    candidate: Candidate,
    result: Result<(), ErrorView>,
) -> bool {
    exists|prepared: Result<PreparedView, ErrorView>| #[trigger]
        prepares(before, candidate, prepared) && connects_prepared(
            before,
            after,
            prepared,
            result,
        )
}

/// What taking a header for the next block ends in, once it was found to have enough work: it is
/// saved, and becomes the tip where the store took it.
pub open spec fn extends_tip<P: ChainStore>(
    before: ChainView<P>,
    after: ChainView<P>,
    header: BlockHeader,
    height: u32,
    hash: BlockHash,
    result: Result<(), ErrorView>,
) -> bool {
    let disk = DiskBlockHeader::HeadersOnly(header, height);
    exists|reply: Result<(), StoreError>| #[trigger]
        answered(before.store, Event::Header(disk, height, reply)) && {
            let wrote = before.wrote(Event::Header(disk, height, reply));
            match reply {
                Err(error) => refuses(wrote, after, ErrorView::DatabaseError(error), result),
                Ok(()) => result is Ok && after == (ChainView {
                    best_block: wrote.best_block.with_block(hash, height),
                    ..wrote
                }),
            }
        }
}

/// What taking a header for the next block ends in, once the header of the tip was looked up.
pub open spec fn accepts_after<P: ChainStore>(
    before: ChainView<P>,
    after: ChainView<P>,
    header: BlockHeader,
    height: u32,
    parent: Result<BlockHeader, ErrorView>,
    result: Result<(), ErrorView>,
) -> bool {
    match parent {
        Err(error) => refuses(before, after, error, result),
        Ok(parent) => accepts_on(before, after, header, height, parent, result),
    }
}

/// What taking a header for the next block ends in where `parent` is the tip, at the time that the
/// clock says.
pub open spec fn accepts_on<P: ChainStore>(
    before: ChainView<P>,
    after: ChainView<P>,
    header: BlockHeader,
    height: u32,
    parent: BlockHeader,
    result: Result<(), ErrorView>,
) -> bool {
    exists|now: u64, work: Result<nat, ErrorView>|
        clock_said(now) && #[trigger] requires_work(
            before.store,
            before.chain_params,
            parent,
            height,
            now,
            work,
        ) && accepts_with_work(before, after, header, height, work, result)
}

/// What taking a header for the next block ends in, once the required target is known.
pub open spec fn accepts_with_work<P: ChainStore>(
    before: ChainView<P>,
    after: ChainView<P>,
    header: BlockHeader,
    height: u32,
    work: Result<nat, ErrorView>,
    result: Result<(), ErrorView>,
) -> bool {
    match work {
        Err(error) => refuses(before, after, error, result),
        Ok(target) => match work_checked(header, target) {
            Err(error) => refuses(before, after, error, result),
            Ok(hash) => extends_tip(before, after, header, height, hash, result),
        },
    }
}

/// What accepting a header ends in once it was looked up: one that is known changes nothing, and
/// another one must follow the tip.
pub open spec fn accepts_found<P: ChainStore>(
    before: ChainView<P>,
    after: ChainView<P>,
    header: BlockHeader,
    found: Result<BlockHeader, ErrorView>,
    result: Result<(), ErrorView>,
) -> bool {
    let tip = before.best_block;
    if found is Ok {
        result is Ok && after == before
    } else if header.prev_blockhash != tip.best_block {
        refuses(before, after, ErrorView::Fatal(Fault::ForkHeader), result)
    } else if tip.depth == u32::MAX {
        refuses(before, after, ErrorView::Fatal(Fault::HeightExhausted), result)
    } else {
        exists|parent: Result<BlockHeader, ErrorView>| #[trigger]
            reads_header(before.store, tip.best_block, parent) && accepts_after(
                before,
                after,
                header,
                (tip.depth + 1) as u32,
                parent,
                result,
            )
    }
}

/// What accepting a header can end in: the state `after` and `result`.
pub open spec fn accepts<P: ChainStore>(
    before: ChainView<P>,
    after: ChainView<P>,
    header: BlockHeader,
    result: Result<(), ErrorView>,
) -> bool {
    exists|found: Result<BlockHeader, ErrorView>| #[trigger]
        reads_header(before.store, block_hash_of(header), found) && accepts_found(
            before,
            after,
            header,
            found,
            result,
        )
}

} // verus!
