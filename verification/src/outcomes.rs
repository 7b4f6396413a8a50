//! What each request ends in, and why: every outcome carries its reason.

use vstd::prelude::*;

use crate::accumulator::{nodes_of, proof_checked, stump_modified, ProofView, StumpView};
use crate::best_chain::{BestChain, BestChainView};
use crate::chain_state::{bytes_of, flushes, loaded_acc, loads_acc, locates, makes_durable};
use crate::chain_state::{resumed, resumed_with, saves_height, stored};
use crate::connect::{accepts, accepts_after, accepts_found, accepts_with_work, extends_tip};
use crate::connect::{acc_updated, block_checked, contents_checked, work_checked};
use crate::connect::{commits, commits_height, connects, connects_prepared};
use crate::connect::{prepared_with_work, prepares, prepares_at};
use crate::connect::{prepares_found, prepares_with, prepares_with_parent, refuses, saves_roots};
use crate::connect::{roots_saved, Candidate, ChainView, PreparedView, ValidBlockView};
use crate::encoding::{le_value, lemma_le_bytes_of_value, lemma_pow256_values};
use crate::error::{BlockValidationErrors, ErrorView, Fault, StoreError};
use crate::hash::{hashes_from, BlockHash, Hash256};
use crate::lookup::{found_in, header_found, reads_disk_header, reads_header};
use crate::lookup::{lacks_block, law_block_at_height};
use crate::lookup::{law_target_of_new_epoch, law_target_stays_within_epoch};
use crate::lookup::{reads_hash, recorded, requires_work};
use crate::notification::NotificationView;
use crate::params::{are_params_of, ChainParams, Network};
use crate::pow::clock_said;
use crate::primitives::{block_hash_of, merkle_root_of, stripped_txid, witness_committed};
use crate::primitives::{BlockHeader, BlockView, OutPoint, TransactionView, TxOutView};
use crate::store::{answered, ChainStore, DiskBlockHeader, Event};
use crate::uint::compact_value;
use crate::utxo::transactions_checked;

verus! {

/// The accumulator after a block is what taking out `deleted` and putting in the leaves of the
/// block makes of it, and only where the proof holds for `deleted`. An error of the accumulator is
/// handed on, and a proof that does not hold is an error of its own.
pub proof fn law_accumulator_outcome(
    acc: StumpView,
    block: BlockView,
    height: u32,
    proof: ProofView,
    deleted: Seq<Hash256>,
)
    ensures
        ({
            let held = proof_checked(
                acc.leafs,
                nodes_of(acc.roots),
                proof.targets,
                nodes_of(proof.hashes),
                nodes_of(deleted),
            );
            let modified = stump_modified(
                acc.leafs,
                nodes_of(acc.roots),
                nodes_of(block.leaves(height)),
                nodes_of(deleted),
                proof.targets,
                nodes_of(proof.hashes),
            );
            match acc_updated(acc, block, height, proof, deleted) {
                Ok(after) => held == Ok::<bool, Seq<char>>(true) && modified == Ok::<
                    (u64, Seq<Hash256>),
                    Seq<char>,
                >((after.leafs, after.roots)),
                Err(ErrorView::InvalidProof) => held == Ok::<bool, Seq<char>>(false),
                Err(ErrorView::UtreexoError(text)) => held == Err::<bool, Seq<char>>(text) || (held
                    == Ok::<bool, Seq<char>>(true) && modified == Err::<
                    (u64, Seq<Hash256>),
                    Seq<char>,
                >(text)),
                Err(_) => false,
            }
        }),
{
}

/// A block passes the checks that need no store exactly where the accumulator takes it, the merkle
/// root over the ids of all its transactions, in order, is the one in its header, its witnesses are
/// committed to, and it follows `parent`. The first of these that fails gives the error.
pub proof fn law_block_check_outcome(
    acc: StumpView,
    block: BlockView,
    height: u32,
    proof: ProofView,
    deleted: Seq<Hash256>,
    parent: BlockHash,
)
    ensures
        ({
            let updated = acc_updated(acc, block, height, proof, deleted);
            let txids = Seq::new(
                block.txdata.len(),
                |t: int| stripped_txid(block.txdata[t].stripped()),
            );
            let rooted = merkle_root_of(txids) == Some(block.header.merkle_root);
            let committed = witness_committed(block.txdata);
            match block_checked(acc, block, height, proof, deleted, parent) {
                Ok(after) => updated == Ok::<StumpView, ErrorView>(after) && rooted && committed
                    && block.header.prev_blockhash == parent,
                Err(ErrorView::BlockValidationError(what)) => updated is Ok && match what {
                    BlockValidationErrors::BadMerkleRoot => !rooted,
                    BlockValidationErrors::BadWitnessCommitment => rooted && !committed,
                    BlockValidationErrors::PrevBlockNotFound(hash) => rooted && committed && hash
                        == block.header.prev_blockhash && hash != parent,
                    _ => false,
                },
                Err(error) => updated == Err::<StumpView, ErrorView>(error),
            }
        }),
{
    let txids = Seq::new(block.txdata.len(), |t: int| stripped_txid(block.txdata[t].stripped()));
    assert(txids =~= block.txids());
}

/// A header has enough work exactly where it claims the required target and its hash, read as a
/// number, least significant byte first, does not exceed it.
pub proof fn law_work_check_outcome(header: BlockHeader, target: nat)
    ensures
        match work_checked(header, target) {
            Ok(hash) => hash == block_hash_of(header) && compact_value(header.bits) == target
                && le_value(block_hash_of(header).0@) <= target,
            Err(error) => error == ErrorView::BlockValidationError(
                BlockValidationErrors::NotEnoughPow,
            ) && (compact_value(header.bits) != target || le_value(block_hash_of(header).0@)
                > target),
        },
{
}

/// The rest of a block is in order exactly where it has enough work and its transactions may spend
/// what they spend, and the work is asked first.
pub proof fn law_contents_check_outcome(
    block: BlockView,
    target: nat,
    utxos: Map<OutPoint, TxOutView>,
)
    ensures
        ({
            let worked = compact_value(block.header.bits) == target && le_value(
                block_hash_of(block.header).0@,
            ) <= target;
            match contents_checked(block, target, utxos) {
                Ok(hash) => hash == block_hash_of(block.header) && worked && transactions_checked(
                    block.txdata,
                    utxos,
                ) is Ok,
                Err(ErrorView::BlockValidationError(BlockValidationErrors::NotEnoughPow)) =>
                    !worked,
                Err(ErrorView::BlockValidationError(BlockValidationErrors::InvalidTx)) => worked
                    && transactions_checked(block.txdata, utxos) is Err,
                Err(_) => false,
            }
        }),
{
}

/// `store` can have answered with `reply` when it was asked for the header of `hash`.
pub open spec fn said_of<P: ChainStore>(
    store: P,
    hash: BlockHash,
    reply: Result<Option<DiskBlockHeader>, StoreError>,
) -> bool {
    call_ensures(P::get_header, (&store, &hash), reply)
}

/// `error` is why no header was found for `hash`: there is none, or the store failed.
pub open spec fn not_found<P: ChainStore>(store: P, hash: BlockHash, error: ErrorView) -> bool {
    exists|reply: Result<Option<DiskBlockHeader>, StoreError>| #[trigger]
        said_of(store, hash, reply) && match reply {
            Ok(None) => error == ErrorView::BlockNotPresent,
            Err(failure) => error == ErrorView::DatabaseError(failure),
            Ok(Some(_)) => false,
        }
}

/// Looking up the record of a block says what the store said: the record, that there is none, or
/// the store's own failure.
pub proof fn law_record_outcome<P: ChainStore>(
    store: P,
    hash: BlockHash,
    found: Result<DiskBlockHeader, ErrorView>,
)
    requires
        reads_disk_header(store, hash, found),
    ensures
        match found {
            Ok(record) => said_of(store, hash, Ok(Some(record))),
            Err(error) => not_found(store, hash, error),
        },
{
    let reply = choose|reply: Result<Option<DiskBlockHeader>, StoreError>| #[trigger]
        call_ensures(P::get_header, (&store, &hash), reply) && found == found_in(reply);
    assert(said_of(store, hash, reply));
    if found is Ok {
        assert(reply == Ok::<Option<DiskBlockHeader>, StoreError>(Some(found->Ok_0)));
    } else {
        assert(not_found(store, hash, found->Err_0));
    }
}

/// Looking up a header says what the store said: the header in the record, that there is none, or
/// the store's own failure.
pub proof fn law_lookup_outcome<P: ChainStore>(
    store: P,
    hash: BlockHash,
    found: Result<BlockHeader, ErrorView>,
)
    requires
        reads_header(store, hash, found),
    ensures
        match found {
            Ok(header) => exists|record: DiskBlockHeader| #[trigger]
                said_of(store, hash, Ok(Some(record))) && header == recorded(record),
            Err(error) => not_found(store, hash, error),
        },
{
    let disk = choose|disk: Result<DiskBlockHeader, ErrorView>| #[trigger]
        reads_disk_header(store, hash, disk) && found == header_found(disk);
    law_record_outcome(store, hash, disk);
    if disk is Ok {
        assert(said_of(store, hash, Ok(Some(disk->Ok_0))));
        assert(recorded(disk->Ok_0) == found->Ok_0);
    }
}

/// The checks on a candidate that stands at `height`, where those that need the store ended in
/// `target`: what the store said of the parent, when the clock was read, and what is required.
pub open spec fn asks_for<P: ChainStore>(
    state: ChainView<P>,
    height: u32,
    record: DiskBlockHeader,
    now: u64,
    work: Result<nat, ErrorView>,
) -> bool {
    &&& said_of(state.store, state.best_block.validation_index, Ok(Some(record)))
    &&& clock_said(now)
    &&& requires_work(state.store, state.chain_params, recorded(record), height, now, work)
}

/// The checks on a block that is known, at `height`, and not validated yet, refuse it for `error`.
pub open spec fn refused_for<P: ChainStore>(
    state: ChainView<P>,
    candidate: Candidate,
    height: u32,
    error: ErrorView,
) -> bool {
    let checked = block_checked(
        state.acc,
        candidate.block,
        height,
        candidate.proof,
        candidate.deleted,
        state.best_block.validation_index,
    );
    if !state.acc.answers(candidate.proof, candidate.deleted) {
        error == ErrorView::Fatal(Fault::PositionOverflow)
    } else {
        ||| checked == Err::<StumpView, ErrorView>(error)
        ||| checked is Ok && not_found(state.store, state.best_block.validation_index, error)
        ||| checked is Ok && exists|record: DiskBlockHeader, now: u64| #[trigger]
            asks_for(state, height, record, now, Err(error))
        ||| checked is Ok && exists|record: DiskBlockHeader, now: u64, target: nat| #[trigger]
            asks_for(state, height, record, now, Ok(target)) && contents_checked(
                candidate.block,
                target,
                candidate.inputs,
            ) == Err::<BlockHash, ErrorView>(error)
    }
}

/// What the checks on a block end in carries its reason: the store's record under the hash of the
/// block's header says whether anything is to be checked, and at which height. A valid block passed
/// every check against the last validated block, and a refused one failed one of them.
pub proof fn law_prepare_outcome<P: ChainStore>(
    state: ChainView<P>,
    candidate: Candidate,
    result: Result<PreparedView, ErrorView>,
)
    requires
        prepares(state, candidate, result),
    ensures
        ({
            let hash = block_hash_of(candidate.block.header);
            match result {
                Ok(PreparedView::Validated(named)) => named == hash && exists|
                    header: BlockHeader,
                    height: u32,
                | #[trigger]
                    said_of(
                        state.store,
                        hash,
                        Ok(Some(DiskBlockHeader::FullyValid(header, height))),
                    ),
                Ok(PreparedView::Orphan) => exists|header: BlockHeader| #[trigger]
                    said_of(state.store, hash, Ok(Some(DiskBlockHeader::Orphan(header)))),
                Ok(PreparedView::Valid(valid)) => {
                    &&& exists|header: BlockHeader| #[trigger]
                        said_of(
                            state.store,
                            hash,
                            Ok(Some(DiskBlockHeader::HeadersOnly(header, valid.height))),
                        )
                    &&& valid.block == candidate.block
                    &&& valid.hash == hash
                    &&& block_checked(
                        state.acc,
                        candidate.block,
                        valid.height,
                        candidate.proof,
                        candidate.deleted,
                        state.best_block.validation_index,
                    ) == Ok::<StumpView, ErrorView>(valid.acc)
                    &&& exists|record: DiskBlockHeader, now: u64, target: nat| #[trigger]
                        asks_for(state, valid.height, record, now, Ok(target)) && contents_checked(
                            candidate.block,
                            target,
                            candidate.inputs,
                        ) is Ok
                },
                Err(error) => {
                    ||| not_found(state.store, hash, error)
                    ||| exists|header: BlockHeader, height: u32| #[trigger]
                        said_of(
                            state.store,
                            hash,
                            Ok(Some(DiskBlockHeader::HeadersOnly(header, height))),
                        ) && refused_for(state, candidate, height, error)
                },
            }
        }),
{
    let hash = block_hash_of(candidate.block.header);
    let found = choose|found: Result<DiskBlockHeader, ErrorView>| #[trigger]
        reads_disk_header(state.store, hash, found) && prepares_found(
            state,
            candidate,
            found,
            result,
        );
    law_record_outcome(state.store, hash, found);
    match found {
        Ok(DiskBlockHeader::HeadersOnly(header, height)) => {
            assert(said_of(
                state.store,
                hash,
                Ok(Some(DiskBlockHeader::HeadersOnly(header, height))),
            ));
            lemma_prepare_at_outcome(state, candidate, height, result);
        },
        Ok(DiskBlockHeader::FullyValid(header, height)) => {
            assert(said_of(
                state.store,
                hash,
                Ok(Some(DiskBlockHeader::FullyValid(header, height))),
            ));
        },
        Ok(DiskBlockHeader::Orphan(header)) => {
            assert(said_of(state.store, hash, Ok(Some(DiskBlockHeader::Orphan(header)))));
        },
        Err(_) => {},
    }
}

proof fn lemma_prepare_at_outcome<P: ChainStore>(
    state: ChainView<P>,
    candidate: Candidate,
    height: u32,
    result: Result<PreparedView, ErrorView>,
)
    requires
        prepares_at(state, candidate, height, result),
    ensures
        match result {
            Ok(PreparedView::Valid(valid)) => {
                &&& valid.height == height
                &&& valid.block == candidate.block
                &&& valid.hash == block_hash_of(candidate.block.header)
                &&& block_checked(
                    state.acc,
                    candidate.block,
                    height,
                    candidate.proof,
                    candidate.deleted,
                    state.best_block.validation_index,
                ) == Ok::<StumpView, ErrorView>(valid.acc)
                &&& exists|record: DiskBlockHeader, now: u64, target: nat| #[trigger]
                    asks_for(state, height, record, now, Ok(target)) && contents_checked(
                        candidate.block,
                        target,
                        candidate.inputs,
                    ) is Ok
            },
            Ok(_) => false,
            Err(error) => refused_for(state, candidate, height, error),
        },
{
    let index = state.best_block.validation_index;
    let checked = block_checked(
        state.acc,
        candidate.block,
        height,
        candidate.proof,
        candidate.deleted,
        index,
    );
    if state.acc.answers(candidate.proof, candidate.deleted) && checked is Ok {
        let acc = checked->Ok_0;
        assert(prepares_with(state, candidate, height, acc, result));
        let parent = choose|parent: Result<BlockHeader, ErrorView>| #[trigger]
            reads_header(state.store, index, parent) && prepares_with_parent(
                state,
                candidate,
                height,
                acc,
                parent,
                result,
            );
        law_lookup_outcome(state.store, index, parent);
        if parent is Ok {
            let record = choose|record: DiskBlockHeader| #[trigger]
                said_of(state.store, index, Ok(Some(record))) && parent->Ok_0 == recorded(record);
            let (now, work) = choose|now: u64, work: Result<nat, ErrorView>|
                clock_said(now) && #[trigger] requires_work(
                    state.store,
                    state.chain_params,
                    parent->Ok_0,
                    height,
                    now,
                    work,
                ) && result == prepared_with_work(candidate, height, acc, work);
            assert(asks_for(state, height, record, now, work));
            if work is Ok {
                assert(asks_for(state, height, record, now, Ok(work->Ok_0)));
                law_contents_check_outcome(candidate.block, work->Ok_0, candidate.inputs);
            } else {
                assert(asks_for(state, height, record, now, Err(work->Err_0)));
            }
        }
    }
}

/// Whatever goes out to the store is what the store was really told, and its answer is really the
/// store's.
pub proof fn law_events_are_calls<P: ChainStore>(store: P, event: Event)
    requires
        answered(store, event),
    ensures
        match event {
            Event::Notify(_) => true,
            Event::Roots(bytes, reply) => exists|roots: Vec<u8>|
                roots@ == bytes && #[trigger] call_ensures(P::save_roots, (&store, roots), reply),
            Event::Header(header, height, reply) => call_ensures(
                P::save_header,
                (&store, &header, height),
                reply,
            ),
            Event::Height(chain, reply) => exists|given: BestChain|
                given@ == chain && #[trigger] call_ensures(
                    P::save_height,
                    (&store, &given),
                    reply,
                ),
            Event::Flush(reply) => call_ensures(P::flush, (&store,), reply),
        },
{
}

proof fn lemma_unit(reply: Result<(), StoreError>)
    requires
        reply is Ok,
    ensures
        reply == Ok::<(), StoreError>(()),
{
    assert(reply->Ok_0 == ());
}

/// The store refused the header of a valid block, and no more was done.
pub open spec fn header_refused<P: ChainStore>(
    before: ChainView<P>,
    after: ChainView<P>,
    valid: ValidBlockView,
    error: StoreError,
    result: Result<(), ErrorView>,
) -> bool {
    let record = DiskBlockHeader::FullyValid(valid.block.header, valid.height);
    let refused = Event::Header(record, valid.height, Err(error));
    &&& answered(before.store, refused)
    &&& after == (ChainView { events: before.events.push(refused), ..before })
    &&& result == Err::<(), ErrorView>(ErrorView::DatabaseError(error))
}

/// The store took the header of a valid block and refused the best chain, and no more was done.
pub open spec fn height_refused<P: ChainStore>(
    before: ChainView<P>,
    after: ChainView<P>,
    valid: ValidBlockView,
    error: StoreError,
    result: Result<(), ErrorView>,
) -> bool {
    let record = DiskBlockHeader::FullyValid(valid.block.header, valid.height);
    let saved = Event::Header(record, valid.height, Ok(()));
    let refused = Event::Height(before.best_block, Err(error));
    &&& answered(before.store, saved)
    &&& answered(before.store, refused)
    &&& after == (ChainView { events: before.events.push(saved).push(refused), ..before })
    &&& result == Err::<(), ErrorView>(ErrorView::DatabaseError(error))
}

/// The store took the header of a valid block and the best chain. So the block is the last
/// validated one, its accumulator is the chain's, and the store answered `reply` when it was told
/// of that.
pub open spec fn roots_told<P: ChainStore>(
    before: ChainView<P>,
    after: ChainView<P>,
    valid: ValidBlockView,
    reply: Result<(), StoreError>,
    result: Result<(), ErrorView>,
) -> bool {
    let record = DiskBlockHeader::FullyValid(valid.block.header, valid.height);
    let saved = Event::Header(record, valid.height, Ok(()));
    let kept = Event::Height(before.best_block, Ok(()));
    let roots = Event::Roots(valid.acc.encoded(), reply);
    &&& answered(before.store, saved)
    &&& answered(before.store, kept)
    &&& answered(before.store, roots)
    &&& after == (ChainView {
        events: before.events.push(saved).push(kept).push(roots),
        acc: valid.acc,
        best_block: BestChainView {
            validation_index: valid.hash,
            best_block: before.best_block.best_block,
            depth: before.best_block.depth,
            rescan_index: before.best_block.rescan_index,
            alternative_tips: before.best_block.alternative_tips,
        },
        ..before
    })
    &&& reply is Ok ==> result == Ok::<(), ErrorView>(())
    &&& reply is Err ==> result == Err::<(), ErrorView>(ErrorView::Fatal(Fault::RootsNotSaved))
}

/// A valid block was taken in as far as the store went along: first its header is saved as
/// validated, at its height, then the best chain as it was, and only then does the chain count the
/// block as validated, take its accumulator and save that.
pub open spec fn takes_in<P: ChainStore>(
    before: ChainView<P>,
    after: ChainView<P>,
    valid: ValidBlockView,
    result: Result<(), ErrorView>,
) -> bool {
    ||| exists|error: StoreError| #[trigger] header_refused(before, after, valid, error, result)
    ||| exists|error: StoreError| #[trigger] height_refused(before, after, valid, error, result)
    ||| exists|reply: Result<(), StoreError>| #[trigger]
        roots_told(before, after, valid, reply, result)
}

/// Carrying out what the checks led to does this and nothing else: a block that was validated
/// before becomes the last validated one, one that is not on the chain changes nothing, and a valid
/// one is taken in.
pub proof fn law_commit_outcome<P: ChainStore>(
    before: ChainView<P>,
    after: ChainView<P>,
    prepared: PreparedView,
    result: Result<(), ErrorView>,
)
    requires
        commits(before, after, prepared, result),
    ensures
        match prepared {
            PreparedView::Validated(hash) => result == Ok::<(), ErrorView>(()) && after == (
            ChainView {
                best_block: BestChainView {
                    validation_index: hash,
                    best_block: before.best_block.best_block,
                    depth: before.best_block.depth,
                    rescan_index: before.best_block.rescan_index,
                    alternative_tips: before.best_block.alternative_tips,
                },
                ..before
            }),
            PreparedView::Orphan => result == Ok::<(), ErrorView>(()) && after == before,
            PreparedView::Valid(valid) => takes_in(before, after, valid, result),
        },
{
    if result is Ok {
        assert(result->Ok_0 == ());
    }
    if let PreparedView::Valid(valid) = prepared {
        let record = DiskBlockHeader::FullyValid(valid.block.header, valid.height);
        let first = choose|reply: Result<(), StoreError>| #[trigger]
            answered(before.store, Event::Header(record, valid.height, reply)) && {
                let wrote = before.wrote(Event::Header(record, valid.height, reply));
                match reply {
                    Err(error) => refuses(wrote, after, ErrorView::DatabaseError(error), result),
                    Ok(()) => commits_height(wrote, after, valid.hash, valid.acc, result),
                }
            };
        if first is Err {
            assert(header_refused(before, after, valid, first->Err_0, result));
        } else {
            lemma_unit(first);
            let saved = before.wrote(Event::Header(record, valid.height, first));
            let second = choose|reply: Result<(), StoreError>| #[trigger]
                answered(saved.store, Event::Height(saved.best_block, reply)) && {
                    let wrote = saved.wrote(Event::Height(saved.best_block, reply));
                    match reply {
                        Err(error) => refuses(
                            wrote,
                            after,
                            ErrorView::DatabaseError(error),
                            result,
                        ),
                        Ok(()) => saves_roots(
                            wrote.validated(valid.hash, valid.acc),
                            after,
                            result,
                        ),
                    }
                };
            if second is Err {
                assert(height_refused(before, after, valid, second->Err_0, result));
            } else {
                lemma_unit(second);
                let kept = saved.wrote(Event::Height(saved.best_block, second)).validated(
                    valid.hash,
                    valid.acc,
                );
                let third = choose|reply: Result<(), StoreError>| #[trigger]
                    answered(kept.store, Event::Roots(kept.acc.encoded(), reply)) && after
                        == kept.wrote(Event::Roots(kept.acc.encoded(), reply)) && result
                        == roots_saved(reply);
                assert(roots_told(before, after, valid, third, result));
            }
        }
    }
}

/// Connecting a block makes the checks and carries out what they led to. A block that is refused
/// changes nothing, and for a valid one the notification with the whole block and its height goes
/// out before anything else.
pub proof fn law_connect_outcome<P: ChainStore>(
    before: ChainView<P>,
    after: ChainView<P>,
    candidate: Candidate,
    result: Result<(), ErrorView>,
)
    requires
        connects(before, after, candidate, result),
    ensures
        exists|prepared: Result<PreparedView, ErrorView>| #[trigger]
            prepares(before, candidate, prepared) && match prepared {
                Err(error) => after == before && result == Err::<(), ErrorView>(error),
                Ok(PreparedView::Valid(valid)) => {
                    let told = NotificationView::NewBlock(valid.block, valid.height);
                    takes_in(
                        ChainView {
                            notifications: before.notifications.push(told),
                            events: before.events.push(Event::Notify(told)),
                            ..before
                        },
                        after,
                        valid,
                        result,
                    )
                },
                Ok(other) => commits(before, after, other, result),
            },
{
    let prepared = choose|prepared: Result<PreparedView, ErrorView>| #[trigger]
        prepares(before, candidate, prepared) && connects_prepared(
            before,
            after,
            prepared,
            result,
        );
    if prepared is Ok && prepared->Ok_0 is Valid {
        let valid = prepared->Ok_0->Valid_0;
        let told = NotificationView::NewBlock(valid.block, valid.height);
        law_commit_outcome(before.notifying(told), after, prepared->Ok_0, result);
    }
}

/// A block for which anything went out passed every check: its proof holds, the merkle root over
/// the ids of all its transactions, in order, stands in its header, its witnesses are committed to,
/// and it follows the last validated block.
pub proof fn law_connected_block_is_sound<P: ChainStore>(
    before: ChainView<P>,
    after: ChainView<P>,
    candidate: Candidate,
    result: Result<(), ErrorView>,
)
    requires
        connects(before, after, candidate, result),
        after.events != before.events,
    ensures
        merkle_root_of(
            candidate.block.txdata.map_values(
                |transaction: TransactionView| stripped_txid(transaction.stripped()),
            ),
        ) == Some(candidate.block.header.merkle_root),
        witness_committed(candidate.block.txdata),
        candidate.block.header.prev_blockhash == before.best_block.validation_index,
        proof_checked(
            before.acc.leafs,
            nodes_of(before.acc.roots),
            candidate.proof.targets,
            nodes_of(candidate.proof.hashes),
            nodes_of(candidate.deleted),
        ) == Ok::<bool, Seq<char>>(true),
        transactions_checked(candidate.block.txdata, candidate.inputs) is Ok,
        le_value(block_hash_of(candidate.block.header).0@) <= compact_value(
            candidate.block.header.bits,
        ),
{
    law_connect_outcome(before, after, candidate, result);
    let prepared = choose|prepared: Result<PreparedView, ErrorView>| #[trigger]
        prepares(before, candidate, prepared) && match prepared {
            Err(error) => after == before && result == Err::<(), ErrorView>(error),
            Ok(PreparedView::Valid(valid)) => {
                let told = NotificationView::NewBlock(valid.block, valid.height);
                takes_in(
                    ChainView {
                        notifications: before.notifications.push(told),
                        events: before.events.push(Event::Notify(told)),
                        ..before
                    },
                    after,
                    valid,
                    result,
                )
            },
            Ok(other) => commits(before, after, other, result),
        };
    let valid = prepared->Ok_0->Valid_0;
    law_prepare_outcome(before, candidate, prepared);
    let index = before.best_block.validation_index;
    law_block_check_outcome(
        before.acc,
        candidate.block,
        valid.height,
        candidate.proof,
        candidate.deleted,
        index,
    );
    law_accumulator_outcome(
        before.acc,
        candidate.block,
        valid.height,
        candidate.proof,
        candidate.deleted,
    );
    let (record, now, target) = choose|record: DiskBlockHeader, now: u64, target: nat| #[trigger]
        asks_for(before, valid.height, record, now, Ok(target)) && contents_checked(
            candidate.block,
            target,
            candidate.inputs,
        ) is Ok;
    law_contents_check_outcome(candidate.block, target, candidate.inputs);
    lemma_txids(candidate.block);
}

/// The ids of the transactions, one way and the other.
proof fn lemma_txids(block: BlockView)
    ensures
        block.txdata.map_values(
            |transaction: TransactionView| stripped_txid(transaction.stripped()),
        ) == Seq::new(block.txdata.len(), |t: int| stripped_txid(block.txdata[t].stripped())),
{
    assert(block.txdata.map_values(
        |transaction: TransactionView| stripped_txid(transaction.stripped()),
    ) =~= Seq::new(block.txdata.len(), |t: int| stripped_txid(block.txdata[t].stripped())));
}

/// A block is refused for its merkle root only where the root over the ids of all its transactions,
/// in order, is not the one in its header.
pub proof fn law_bad_merkle_root_is_bad<P: ChainStore>(
    before: ChainView<P>,
    after: ChainView<P>,
    candidate: Candidate,
)
    requires
        connects(
            before,
            after,
            candidate,
            Err(ErrorView::BlockValidationError(BlockValidationErrors::BadMerkleRoot)),
        ),
    ensures
        merkle_root_of(
            candidate.block.txdata.map_values(
                |transaction: TransactionView| stripped_txid(transaction.stripped()),
            ),
        ) != Some(candidate.block.header.merkle_root),
{
    let error = ErrorView::BlockValidationError(BlockValidationErrors::BadMerkleRoot);
    law_connect_outcome(before, after, candidate, Err(error));
    assert(prepares(before, candidate, Err(error)));
    law_prepare_outcome(before, candidate, Err(error));
    let hash = block_hash_of(candidate.block.header);
    let (header, height) = choose|header: BlockHeader, height: u32| #[trigger]
        said_of(
            before.store,
            hash,
            Ok(Some(DiskBlockHeader::HeadersOnly(header, height))),
        ) && refused_for(before, candidate, height, error);
    law_block_check_outcome(
        before.acc,
        candidate.block,
        height,
        candidate.proof,
        candidate.deleted,
        before.best_block.validation_index,
    );
    lemma_txids(candidate.block);
    if exists|record: DiskBlockHeader, now: u64| #[trigger]
        asks_for(before, height, record, now, Err(error)) {
        let (record, now) = choose|record: DiskBlockHeader, now: u64| #[trigger]
            asks_for(before, height, record, now, Err(error));
        lemma_work_errors(
            before.store,
            before.chain_params,
            recorded(record),
            height,
            now,
            error,
        );
    }
    if exists|record: DiskBlockHeader, now: u64, target: nat| #[trigger]
        asks_for(before, height, record, now, Ok(target)) && contents_checked(
            candidate.block,
            target,
            candidate.inputs,
        ) == Err::<BlockHash, ErrorView>(error) {
        let (record, now, target) = choose|record: DiskBlockHeader, now: u64, target: nat|
            #[trigger]
            asks_for(before, height, record, now, Ok(target)) && contents_checked(
                candidate.block,
                target,
                candidate.inputs,
            ) == Err::<BlockHash, ErrorView>(error);
        law_contents_check_outcome(candidate.block, target, candidate.inputs);
    }
}

/// Where no target can be told, the chain cannot go on.
proof fn lemma_work_errors<P: ChainStore>(
    store: P,
    params: ChainParams,
    last: BlockHeader,
    height: u32,
    now: u64,
    error: ErrorView,
)
    requires
        requires_work(store, params, last, height, now, Err(error)),
    ensures
        error is Fatal,
{
    if (!params.pow_allow_min_diff || now <= last.time + 1200) && !params.pow_allow_no_retarget
        && height % 2016 == 0 {
        law_target_of_new_epoch(store, params, last, height, now, Err(error));
    }
}

/// Accepting a header ends so: one that the store has a record of changes nothing. Another one that
/// does not follow the tip, or would be too high, stops the chain. One that follows is refused for
/// what the store says of the tip, or for its work, or it is saved as a header at the next height,
/// and then it is the tip unless the store refuses it.
pub proof fn law_accept_outcome<P: ChainStore>(
    before: ChainView<P>,
    after: ChainView<P>,
    header: BlockHeader,
    result: Result<(), ErrorView>,
)
    requires
        accepts(before, after, header, result),
    ensures
        ({
            let hash = block_hash_of(header);
            let tip = before.best_block.best_block;
            let next = (before.best_block.depth + 1) as u32;
            let unknown = exists|error: ErrorView| #[trigger] not_found(before.store, hash, error);
            let follows = header.prev_blockhash == tip && before.best_block.depth < u32::MAX;
            let record = DiskBlockHeader::HeadersOnly(header, next);
            if after == before {
                match result {
                    Ok(()) => exists|known: DiskBlockHeader| #[trigger]
                        said_of(before.store, hash, Ok(Some(known))),
                    Err(ErrorView::Fatal(Fault::ForkHeader)) => unknown && header.prev_blockhash
                        != tip,
                    Err(error) => {
                        ||| unknown && header.prev_blockhash == tip && before.best_block.depth
                            == u32::MAX && error == ErrorView::Fatal(Fault::HeightExhausted)
                        ||| unknown && follows && not_found(before.store, tip, error)
                        ||| unknown && follows && exists|
                            parent: DiskBlockHeader,
                            now: u64,
                            work: Result<nat, ErrorView>,
                        |
                            {
                                &&& said_of(before.store, tip, Ok(Some(parent)))
                                &&& clock_said(now)
                                &&& #[trigger] requires_work(
                                    before.store,
                                    before.chain_params,
                                    recorded(parent),
                                    next,
                                    now,
                                    work,
                                )
                                &&& match work {
                                    Err(reason) => error == reason,
                                    Ok(target) => error == ErrorView::BlockValidationError(
                                        BlockValidationErrors::NotEnoughPow,
                                    ) && (compact_value(header.bits) != target || le_value(
                                        hash.0@,
                                    ) > target),
                                }
                            }
                    },
                }
            } else {
                &&& unknown
                &&& follows
                &&& exists|parent: DiskBlockHeader, now: u64, target: nat|
                    {
                        &&& said_of(before.store, tip, Ok(Some(parent)))
                        &&& clock_said(now)
                        &&& #[trigger] requires_work(
                            before.store,
                            before.chain_params,
                            recorded(parent),
                            next,
                            now,
                            Ok(target),
                        )
                        &&& compact_value(header.bits) == target
                        &&& le_value(hash.0@) <= target
                    }
                &&& match result {
                    Ok(()) => answered(before.store, Event::Header(record, next, Ok(()))) && after
                        == (ChainView {
                        events: before.events.push(Event::Header(record, next, Ok(()))),
                        best_block: BestChainView {
                            best_block: hash,
                            depth: next,
                            validation_index: before.best_block.validation_index,
                            rescan_index: before.best_block.rescan_index,
                            alternative_tips: before.best_block.alternative_tips,
                        },
                        ..before
                    }),
                    Err(ErrorView::DatabaseError(error)) => answered(
                        before.store,
                        Event::Header(record, next, Err(error)),
                    ) && after == (ChainView {
                        events: before.events.push(Event::Header(record, next, Err(error))),
                        ..before
                    }),
                    Err(_) => false,
                }
            }
        }),
{
    let hash = block_hash_of(header);
    let tip = before.best_block.best_block;
    let next = (before.best_block.depth + 1) as u32;
    let found = choose|found: Result<BlockHeader, ErrorView>| #[trigger]
        reads_header(before.store, hash, found) && accepts_found(
            before,
            after,
            header,
            found,
            result,
        );
    law_lookup_outcome(before.store, hash, found);
    if found is Ok {
        let known = choose|known: DiskBlockHeader| #[trigger]
            said_of(before.store, hash, Ok(Some(known))) && found->Ok_0 == recorded(known);
        assert(said_of(before.store, hash, Ok(Some(known))));
    } else {
        assert(not_found(before.store, hash, found->Err_0));
        if header.prev_blockhash == tip && before.best_block.depth < u32::MAX {
            let parent = choose|parent: Result<BlockHeader, ErrorView>| #[trigger]
                reads_header(before.store, tip, parent) && accepts_after(
                    before,
                    after,
                    header,
                    next,
                    parent,
                    result,
                );
            law_lookup_outcome(before.store, tip, parent);
            if parent is Ok {
                let record = choose|record: DiskBlockHeader| #[trigger]
                    said_of(before.store, tip, Ok(Some(record))) && parent->Ok_0 == recorded(
                        record,
                    );
                let (now, work) = choose|now: u64, work: Result<nat, ErrorView>|
                    clock_said(now) && #[trigger] requires_work(
                        before.store,
                        before.chain_params,
                        parent->Ok_0,
                        next,
                        now,
                        work,
                    ) && accepts_with_work(before, after, header, next, work, result);
                assert(requires_work(
                    before.store,
                    before.chain_params,
                    recorded(record),
                    next,
                    now,
                    work,
                ));
                if work is Err {
                    lemma_work_errors(
                        before.store,
                        before.chain_params,
                        recorded(record),
                        next,
                        now,
                        work->Err_0,
                    );
                    lemma_no_fork_from_work(
                        before.store,
                        before.chain_params,
                        recorded(record),
                        next,
                        now,
                        work->Err_0,
                    );
                } else {
                    let target = work->Ok_0;
                    law_work_check_outcome(header, target);
                    if work_checked(header, target) is Ok {
                        lemma_extended_tip(before, after, header, next, hash, result);
                        assert(requires_work(
                            before.store,
                            before.chain_params,
                            recorded(record),
                            next,
                            now,
                            Ok(target),
                        ));
                    }
                }
            }
        }
    }
}

/// A target that cannot be told is no reason to speak of a fork.
proof fn lemma_no_fork_from_work<P: ChainStore>(
    store: P,
    params: ChainParams,
    last: BlockHeader,
    height: u32,
    now: u64,
    error: ErrorView,
)
    requires
        requires_work(store, params, last, height, now, Err(error)),
    ensures
        error != ErrorView::Fatal(Fault::ForkHeader),
{
    if (!params.pow_allow_min_diff || now <= last.time + 1200) && !params.pow_allow_no_retarget
        && height % 2016 == 0 {
        law_target_of_new_epoch(store, params, last, height, now, Err(error));
    }
}

proof fn lemma_extended_tip<P: ChainStore>(
    before: ChainView<P>,
    after: ChainView<P>,
    header: BlockHeader,
    height: u32,
    hash: BlockHash,
    result: Result<(), ErrorView>,
)
    requires
        extends_tip(before, after, header, height, hash, result),
    ensures
        ({
            let record = DiskBlockHeader::HeadersOnly(header, height);
            &&& after != before
            &&& match result {
                Ok(()) => answered(before.store, Event::Header(record, height, Ok(()))) && after
                    == (ChainView {
                    events: before.events.push(Event::Header(record, height, Ok(()))),
                    best_block: BestChainView {
                        best_block: hash,
                        depth: height,
                        validation_index: before.best_block.validation_index,
                        rescan_index: before.best_block.rescan_index,
                        alternative_tips: before.best_block.alternative_tips,
                    },
                    ..before
                }),
                Err(ErrorView::DatabaseError(error)) => answered(
                    before.store,
                    Event::Header(record, height, Err(error)),
                ) && after == (ChainView {
                    events: before.events.push(Event::Header(record, height, Err(error))),
                    ..before
                }),
                Err(_) => false,
            }
        }),
{
    let record = DiskBlockHeader::HeadersOnly(header, height);
    let reply = choose|reply: Result<(), StoreError>| #[trigger]
        answered(before.store, Event::Header(record, height, reply)) && {
            let wrote = before.wrote(Event::Header(record, height, reply));
            match reply {
                Err(error) => refuses(wrote, after, ErrorView::DatabaseError(error), result),
                Ok(()) => result is Ok && after == (ChainView {
                    best_block: wrote.best_block.with_block(hash, height),
                    ..wrote
                }),
            }
        };
    if reply is Ok {
        lemma_unit(reply);
    } else {
        assert(reply == Err::<(), StoreError>(reply->Err_0));
    }
    assert(after.events.len() == before.events.len() + 1);
}

/// Within an epoch, on a network that never settles for the least work, a header that becomes the
/// tip claims the target that its parent claims.
pub proof fn law_tip_keeps_target<P: ChainStore>(
    before: ChainView<P>,
    after: ChainView<P>,
    header: BlockHeader,
    result: Result<(), ErrorView>,
)
    requires
        accepts(before, after, header, result),
        after != before,
        !before.chain_params.pow_allow_min_diff,
        before.chain_params.pow_allow_no_retarget || (before.best_block.depth + 1) % 2016 != 0,
    ensures
        exists|parent: DiskBlockHeader| #[trigger]
            said_of(before.store, before.best_block.best_block, Ok(Some(parent))) && compact_value(
                header.bits,
            ) == compact_value(recorded(parent).bits),
{
    law_accept_outcome(before, after, header, result);
    let next = (before.best_block.depth + 1) as u32;
    let (parent, now, target) = choose|parent: DiskBlockHeader, now: u64, target: nat|
        {
            &&& said_of(before.store, before.best_block.best_block, Ok(Some(parent)))
            &&& clock_said(now)
            &&& #[trigger] requires_work(
                before.store,
                before.chain_params,
                recorded(parent),
                next,
                now,
                Ok(target),
            )
            &&& compact_value(header.bits) == target
            &&& le_value(block_hash_of(header).0@) <= target
        };
    law_target_stays_within_epoch(
        before.store,
        before.chain_params,
        recorded(parent),
        next,
        now,
        Ok(target),
    );
}

/// Saving the accumulator tells the store its bytes, and nothing else changes. It must take them.
pub proof fn law_save_outcome<P: ChainStore>(
    before: ChainView<P>,
    after: ChainView<P>,
    result: Result<(), ErrorView>,
)
    requires
        saves_roots(before, after, result),
    ensures
        exists|reply: Result<(), StoreError>| #[trigger]
            answered(before.store, Event::Roots(before.acc.encoded(), reply)) && after == (
            ChainView {
                events: before.events.push(Event::Roots(before.acc.encoded(), reply)),
                ..before
            }) && result == (if reply is Ok {
                Ok::<(), ErrorView>(())
            } else {
                Err(ErrorView::Fatal(Fault::RootsNotSaved))
            }),
{
    let reply = choose|reply: Result<(), StoreError>| #[trigger]
        answered(before.store, Event::Roots(before.acc.encoded(), reply)) && after == before.wrote(
            Event::Roots(before.acc.encoded(), reply),
        ) && result == roots_saved(reply);
    assert(answered(before.store, Event::Roots(before.acc.encoded(), reply)));
}

/// A flush stopped at the accumulator, which the store refused.
pub open spec fn stopped_at_roots<P: ChainStore>(
    before: ChainView<P>,
    after: ChainView<P>,
    error: StoreError,
    result: Result<(), ErrorView>,
) -> bool {
    let roots = Event::Roots(before.acc.encoded(), Err(error));
    &&& answered(before.store, roots)
    &&& after == (ChainView { events: before.events.push(roots), ..before })
    &&& result == Err::<(), ErrorView>(ErrorView::Fatal(Fault::RootsNotSaved))
}

/// A flush stopped after the store took the accumulator and could not be made durable.
pub open spec fn stopped_at_flush<P: ChainStore>(
    before: ChainView<P>,
    after: ChainView<P>,
    error: StoreError,
    result: Result<(), ErrorView>,
) -> bool {
    let roots = Event::Roots(before.acc.encoded(), Ok(()));
    let flush = Event::Flush(Err(error));
    &&& answered(before.store, roots)
    &&& answered(before.store, flush)
    &&& after == (ChainView { events: before.events.push(roots).push(flush), ..before })
    &&& result == Err::<(), ErrorView>(ErrorView::DatabaseError(error))
}

/// A flush came to its end: the store took the accumulator, was made durable, and answered `reply`
/// to the best chain.
pub open spec fn flushed_with<P: ChainStore>(
    before: ChainView<P>,
    after: ChainView<P>,
    reply: Result<(), StoreError>,
    result: Result<(), ErrorView>,
) -> bool {
    let roots = Event::Roots(before.acc.encoded(), Ok(()));
    let flush = Event::Flush(Ok(()));
    let height = Event::Height(before.best_block, reply);
    &&& answered(before.store, roots)
    &&& answered(before.store, flush)
    &&& answered(before.store, height)
    &&& after == (ChainView {
        events: before.events.push(roots).push(flush).push(height),
        ..before
    })
    &&& match reply {
        Ok(()) => result == Ok::<(), ErrorView>(()),
        Err(error) => result == Err::<(), ErrorView>(ErrorView::DatabaseError(error)),
    }
}

/// A flush tells the store the accumulator, makes it durable and tells it the best chain, stops at
/// the first of these that fails, and changes nothing else.
pub proof fn law_flush_outcome<P: ChainStore>(
    before: ChainView<P>,
    after: ChainView<P>,
    result: Result<(), ErrorView>,
)
    requires
        flushes(before, after, result),
    ensures
        ({
            ||| exists|error: StoreError| #[trigger] stopped_at_roots(before, after, error, result)
            ||| exists|error: StoreError| #[trigger] stopped_at_flush(before, after, error, result)
            ||| exists|reply: Result<(), StoreError>| #[trigger]
                flushed_with(before, after, reply, result)
        }),
{
    let (saved, saved_reply) = choose|saved: ChainView<P>, reply: Result<(), ErrorView>| #[trigger]
        saves_roots(before, saved, reply) && match reply {
            Err(error) => refuses(saved, after, error, result),
            Ok(()) => makes_durable(saved, after, result),
        };
    let first = choose|reply: Result<(), StoreError>| #[trigger]
        answered(before.store, Event::Roots(before.acc.encoded(), reply)) && saved == before.wrote(
            Event::Roots(before.acc.encoded(), reply),
        ) && saved_reply == roots_saved(reply);
    if first is Err {
        assert(stopped_at_roots(before, after, first->Err_0, result));
    } else {
        lemma_unit(first);
        let second = choose|reply: Result<(), StoreError>| #[trigger]
            answered(saved.store, Event::Flush(reply)) && {
                let wrote = saved.wrote(Event::Flush(reply));
                match reply {
                    Err(error) => refuses(wrote, after, ErrorView::DatabaseError(error), result),
                    Ok(()) => saves_height(wrote, after, result),
                }
            };
        if second is Err {
            assert(stopped_at_flush(before, after, second->Err_0, result));
        } else {
            lemma_unit(second);
            let durable = saved.wrote(Event::Flush(second));
            let third = choose|reply: Result<(), StoreError>| #[trigger]
                answered(durable.store, Event::Height(durable.best_block, reply)) && after
                    == durable.wrote(Event::Height(durable.best_block, reply)) && result == stored(
                    reply,
                );
            assert(flushed_with(before, after, third, result));
        }
    }
}

/// `store` can hold these bytes for the accumulator.
pub open spec fn keeps_bytes<P: ChainStore>(store: P, bytes: Vec<u8>) -> bool {
    call_ensures(P::load_roots, (&store,), Ok(Some(bytes)))
}

/// `store` can fail to say what it holds for the accumulator.
pub open spec fn fails_to_load<P: ChainStore>(store: P, error: StoreError) -> bool {
    call_ensures(P::load_roots, (&store,), Err(error))
}

/// The accumulator that is loaded is the one in the bytes that the store holds: the number of
/// leaves in the first eight, least significant first, and then the roots, 32 bytes each. Where the
/// store holds none, it is the empty one. Bytes that are too few, or that do not end with a root,
/// are no accumulator, and neither is there one where the store fails.
pub proof fn law_load_outcome<P: ChainStore>(store: P, loaded: Result<StumpView, Fault>)
    requires
        loads_acc(store, loaded),
    ensures
        match loaded {
            Ok(acc) => {
                ||| call_ensures(P::load_roots, (&store,), Ok(None)) && acc.leafs == 0
                    && acc.roots.len() == 0
                ||| exists|bytes: Vec<u8>| #[trigger]
                    keeps_bytes(store, bytes) && bytes@.len() >= 8 && (bytes@.len() < 40 || (
                    bytes@.len() - 8) % 32 == 0) && acc.leafs == le_value(bytes@.take(8))
                        && acc.roots == hashes_from(bytes@.skip(8))
            },
            Err(Fault::RootsUnreadable) => exists|error: StoreError| #[trigger]
                fails_to_load(store, error),
            Err(Fault::RootsMalformed) => exists|bytes: Vec<u8>| #[trigger]
                keeps_bytes(store, bytes) && (bytes@.len() < 8 || (bytes@.len() >= 40 && (
                bytes@.len() - 8) % 32 != 0)),
            Err(_) => false,
        },
{
    let reply = choose|reply: Result<Option<Vec<u8>>, StoreError>| #[trigger]
        call_ensures(P::load_roots, (&store,), reply) && loaded == loaded_acc(bytes_of(reply));
    match reply {
        Err(error) => {
            assert(fails_to_load(store, error));
        },
        Ok(None) => {},
        Ok(Some(bytes)) => {
            assert(keeps_bytes(store, bytes));
            lemma_pow256_values();
            if bytes@.len() >= 8 {
                lemma_le_bytes_of_value(bytes@.take(8));
            }
        },
    }
}

/// Where a chain is taken up it stands where the store says, with the accumulator that was loaded,
/// nothing queued and nothing gone out, and still to be downloaded. It is not taken up where the
/// accumulator cannot be loaded, or where the store has no best chain or fails to say.
pub proof fn law_resume_outcome<P: ChainStore>(
    acc: Result<StumpView, Fault>,
    store: P,
    network: Network,
    result: Result<ChainView<P>, ErrorView>,
)
    requires
        resumed_with(acc, store, network, result),
    ensures
        match result {
            Ok(state) => {
                &&& acc is Ok
                &&& exists|chain: BestChain|
                    {
                        &&& #[trigger] call_ensures(P::load_height, (&store,), Ok(Some(chain)))
                        &&& state.best_block == (BestChainView {
                            best_block: chain.best_block,
                            depth: chain.depth,
                            validation_index: chain.validation_index,
                            rescan_index: chain.rescan_index,
                            alternative_tips: chain.alternative_tips@,
                        })
                    }
                &&& are_params_of(state.chain_params, network)
                &&& state == (ChainView {
                    acc: acc->Ok_0,
                    best_block: state.best_block,
                    broadcast_queue: seq![],
                    notifications: seq![],
                    ibd: true,
                    chain_params: state.chain_params,
                    store,
                    events: seq![],
                })
            },
            Err(ErrorView::Fatal(fault)) => acc == Err::<StumpView, Fault>(fault),
            Err(ErrorView::ChainNotInitialized) => acc is Ok && call_ensures(
                P::load_height,
                (&store,),
                Ok(None),
            ),
            Err(ErrorView::DatabaseError(error)) => acc is Ok && call_ensures(
                P::load_height,
                (&store,),
                Err(error),
            ),
            Err(_) => false,
        },
{
    if acc is Ok {
        let reply = choose|reply: Result<Option<BestChain>, StoreError>| #[trigger]
            call_ensures(P::load_height, (&store,), reply) && resumed(
                acc->Ok_0,
                reply,
                store,
                network,
                result,
            );
        match reply {
            Err(error) => {
                assert(call_ensures(P::load_height, (&store,), Err(error)));
            },
            Ok(None) => {
                assert(call_ensures(P::load_height, (&store,), Ok(None)));
            },
            Ok(Some(chain)) => {
                assert(call_ensures(P::load_height, (&store,), Ok(Some(chain))));
                let state = result->Ok_0;
                assert(state.broadcast_queue =~= seq![]);
                assert(state.notifications =~= seq![]);
                assert(state.events =~= seq![]);
            },
        }
    }
}

/// A locator names, height by height, the blocks that the store says stand there, and fails only
/// where the store names none at one of the heights.
pub proof fn law_locate_outcome<P: ChainStore>(
    store: P,
    heights: Seq<u32>,
    result: Result<Seq<BlockHash>, ErrorView>,
)
    requires
        locates(store, heights, result),
    ensures
        match result {
            Ok(hashes) => hashes.len() == heights.len() && forall|k: int|
                0 <= k < hashes.len() ==> call_ensures(
                    P::get_block_hash,
                    (&store, heights[k]),
                    Ok(Some(#[trigger] hashes[k])),
                ),
            Err(error) => error == ErrorView::Fatal(Fault::MissingBlock) && exists|k: int|
                0 <= k < heights.len() && lacks_block(store, #[trigger] heights[k]),
        },
{
    if result is Ok {
        let hashes = result->Ok_0;
        assert forall|k: int| 0 <= k < hashes.len() implies call_ensures(
            P::get_block_hash,
            (&store, heights[k]),
            Ok(Some(#[trigger] hashes[k])),
        ) by {
            law_block_at_height(store, heights[k], Ok(hashes[k]));
        }
    } else {
        let (k, missing) = choose|k: int, missing: ErrorView|
            0 <= k < heights.len() && #[trigger] reads_hash(
                store,
                heights[k],
                Err::<BlockHash, ErrorView>(missing),
            );
        law_block_at_height(store, heights[k], Err(missing));
    }
}

} // verus!
