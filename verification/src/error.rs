//! Why the chain refuses something.

use vstd::prelude::*;

use crate::hash::BlockHash;
use crate::primitives::OutPoint;

verus! {

/// What a store says when it fails.
#[derive(Debug)]
pub struct StoreError(pub String);

/// What is wrong with a block.
#[derive(Clone, Copy, Debug)]
pub enum BlockValidationErrors {
    /// The header does not hold the root of the merkle tree over the transactions.
    BadMerkleRoot,
    /// The coinbase does not commit to the witnesses.
    BadWitnessCommitment,
    /// The block does not follow the last block that was validated. Holds the block that it
    /// claims to follow.
    PrevBlockNotFound(BlockHash),
    /// The header claims another target than the chain requires, or its hash exceeds it.
    NotEnoughPow,
    /// A transaction spends what it must not spend.
    InvalidTx,
}

/// Why a script does not accept an input, as the consensus library says.
#[derive(Clone, Copy, Debug, PartialEq, Eq, Structural)]
pub enum ScriptError {
    /// The script fails.
    Script,
    /// The spending transaction has no such input.
    TxIndex,
    /// The bytes of the spending transaction are not as many as it has.
    TxSizeMismatch,
    /// The bytes of the spending transaction do not decode.
    TxDeserialize,
    /// The script needs the value of the spent output.
    AmountRequired,
    /// The rules that were asked for are unknown.
    InvalidFlags,
    /// Anything else.
    Other,
}

/// Why a transaction is refused.
#[derive(Clone, Copy, Debug)]
pub enum TransactionError {
    /// An input spends an output that is not there to be spent.
    UnknownSpentOutput(OutPoint),
    /// The script of a spent output does not accept the input.
    ScriptRefused(ScriptError),
}

/// A state from which the chain cannot go on: the store lost or mangled what the chain needs, or
/// the header tree has a shape that is not handled.
#[derive(Clone, Copy, Debug, PartialEq, Eq, Structural)]
pub enum Fault {
    /// The header of the genesis block could not be saved.
    GenesisNotSaved,
    /// The store failed to say what the accumulator's roots are.
    RootsUnreadable,
    /// The accumulator's roots are saved in a form that was never written.
    RootsMalformed,
    /// The accumulator's roots could not be saved.
    RootsNotSaved,
    /// No block is known at a height that is on the chain.
    MissingBlock,
    /// The block at a height that is on the chain has no header.
    MissingHeader,
    /// The last block of an epoch is older than the first.
    TimeReversed,
    /// A block at height zero is to start a new epoch.
    EpochBeforeGenesis,
    /// The chain is as long as a height can count.
    HeightExhausted,
    /// The accumulator has so many leaves that computing with the positions in a proof overflows.
    PositionOverflow,
    /// A header does not follow the tip.
    ForkHeader,
    /// The last block that was validated is not on the chain.
    ValidatedOrphan,
}

/// Why the chain did not do what it was asked to.
#[derive(Debug)]
pub enum BlockchainError {
    BlockNotPresent,
    /// The proof does not show that the spent outputs are in the accumulator.
    InvalidProof,
    /// The store holds no chain.
    ChainNotInitialized,
    BlockValidationError(BlockValidationErrors),
    /// The accumulator refused, in its own words.
    UtreexoError(String),
    DatabaseError(StoreError),
    Fatal(Fault),
}

pub enum ErrorView {
    BlockNotPresent,
    InvalidProof,
    ChainNotInitialized,
    BlockValidationError(BlockValidationErrors),
    UtreexoError(Seq<char>),
    DatabaseError(StoreError),
    Fatal(Fault),
}

impl View for BlockchainError {
    type V = ErrorView;

    open spec fn view(&self) -> ErrorView {
        match *self {
            BlockchainError::BlockNotPresent => ErrorView::BlockNotPresent,
            BlockchainError::InvalidProof => ErrorView::InvalidProof,
            BlockchainError::ChainNotInitialized => ErrorView::ChainNotInitialized,
            BlockchainError::BlockValidationError(what) => ErrorView::BlockValidationError(what),
            BlockchainError::UtreexoError(text) => ErrorView::UtreexoError(text@),
            BlockchainError::DatabaseError(error) => ErrorView::DatabaseError(error),
            BlockchainError::Fatal(fault) => ErrorView::Fatal(fault),
        }
    }
}

/// The result with the view of its error.
pub open spec fn seen<T>(result: Result<T, BlockchainError>) -> Result<T, ErrorView> {
    match result {
        Ok(value) => Ok(value),
        Err(error) => Err(error@),
    }
}

/// The result with the views of its value and its error.
pub open spec fn viewed<T: View>(result: Result<T, BlockchainError>) -> Result<T::V, ErrorView> {
    match result {
        Ok(value) => Ok(value@),
        Err(error) => Err(error@),
    }
}

/// An error is seen as what it is, and a result as what it holds.
pub proof fn law_errors_are_seen<T>(error: BlockchainError, value: T)
    ensures
        match error {
            BlockchainError::BlockNotPresent => error@ == ErrorView::BlockNotPresent,
            BlockchainError::InvalidProof => error@ == ErrorView::InvalidProof,
            BlockchainError::ChainNotInitialized => error@ == ErrorView::ChainNotInitialized,
            BlockchainError::BlockValidationError(what) => error@
                == ErrorView::BlockValidationError(what),
            BlockchainError::UtreexoError(text) => error@ == ErrorView::UtreexoError(text@),
            BlockchainError::DatabaseError(failure) => error@ == ErrorView::DatabaseError(failure),
            BlockchainError::Fatal(fault) => error@ == ErrorView::Fatal(fault),
        },
        seen::<T>(Err(error)) == Err::<T, ErrorView>(error@),
        seen(Ok(value)) == Ok::<T, ErrorView>(value),
{
}

} // verus!
