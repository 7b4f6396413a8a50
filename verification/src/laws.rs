//! What holds of every chain, whatever its store answers.

use vstd::prelude::*;

use crate::accumulator::{law_stump_round_trip, StumpView};
use crate::best_chain::BestChain;
use crate::chain_state::{bytes_of, flushes, loaded_acc, makes_durable, resumed};
use crate::chain_state::{saves_height, stored};
use crate::connect::{accepts, accepts_after, accepts_found, accepts_with_work, block_checked};
use crate::connect::{commits, commits_height, commits_valid, connects, connects_prepared};
use crate::connect::{prepares, refuses, roots_saved, saves_roots};
use crate::connect::{Candidate, ChainView, PreparedView, ValidBlockView};
use crate::error::{ErrorView, Fault, StoreError};
use crate::lookup::{reads_header, requires_work};
use crate::notification::NotificationView;
use crate::params::Network;
use crate::pow::clock_said;
use crate::primitives::{block_hash_of, BlockHeader, TransactionView};
use crate::store::{answered, ChainStore, DiskBlockHeader, Event};

verus! {

/// There is one way for a store to say that all is well.
proof fn lemma_all_well(reply: Result<(), StoreError>)
    requires
        reply is Ok,
    ensures
        reply == Ok::<(), StoreError>(()),
{
    assert(reply->Ok_0 == ());
}

/// A valid block that is taken into the chain is kept.
proof fn lemma_committed<P: ChainStore>(
    before: ChainView<P>,
    after: ChainView<P>,
    valid: ValidBlockView,
)
    requires
        commits_valid(before, after, valid, Ok(())),
    ensures
        after.acc == valid.acc,
        after.notifications == before.notifications,
        after.best_block == before.best_block.validated_to(valid.hash),
        after.events == before.events.push(
            Event::Header(
                DiskBlockHeader::FullyValid(valid.block.header, valid.height),
                valid.height,
                Ok(()),
            ),
        ).push(Event::Height(before.best_block, Ok(()))).push(
            Event::Roots(valid.acc.encoded(), Ok(())),
        ),
{
    let header = DiskBlockHeader::FullyValid(valid.block.header, valid.height);
    let first = choose|reply: Result<(), StoreError>| #[trigger]
        answered(before.store, Event::Header(header, valid.height, reply)) && {
            let wrote = before.wrote(Event::Header(header, valid.height, reply));
            match reply {
                Err(error) => refuses(wrote, after, ErrorView::DatabaseError(error), Ok(())),
                Ok(()) => commits_height(wrote, after, valid.hash, valid.acc, Ok(())),
            }
        };
    lemma_all_well(first);
    let saved = before.wrote(Event::Header(header, valid.height, first));
    let second = choose|reply: Result<(), StoreError>| #[trigger]
        answered(saved.store, Event::Height(saved.best_block, reply)) && {
            let wrote = saved.wrote(Event::Height(saved.best_block, reply));
            match reply {
                Err(error) => refuses(wrote, after, ErrorView::DatabaseError(error), Ok(())),
                Ok(()) => saves_roots(wrote.validated(valid.hash, valid.acc), after, Ok(())),
            }
        };
    lemma_all_well(second);
    let validated = saved.wrote(Event::Height(saved.best_block, second)).validated(
        valid.hash,
        valid.acc,
    );
    lemma_roots_saved(validated, after);
}

proof fn lemma_roots_saved<P: ChainStore>(before: ChainView<P>, after: ChainView<P>)
    requires
        saves_roots(before, after, Ok(())),
    ensures
        after == before.wrote(Event::Roots(before.acc.encoded(), Ok(()))),
{
    let reply = choose|reply: Result<(), StoreError>| #[trigger]
        answered(before.store, Event::Roots(before.acc.encoded(), reply)) && after
            == before.wrote(Event::Roots(before.acc.encoded(), reply)) && Ok::<(), ErrorView>(
            (),
        ) == roots_saved(reply);
    lemma_all_well(reply);
}

/// The accumulator that was saved is the one that is loaded, where the store gives back what it
/// was given.
pub proof fn law_saved_acc_loads(acc: StumpView)
    ensures
        loaded_acc(Ok::<Option<Seq<u8>>, StoreError>(Some(acc.encoded())))
            == Ok::<StumpView, Fault>(acc),
{
    law_stump_round_trip(acc);
}

/// A block that is refused for itself, and not because the store failed, changes nothing: neither
/// the chain nor what the store holds, and nobody is told.
pub proof fn law_refused_block_changes_nothing<P: ChainStore>(
    before: ChainView<P>,
    after: ChainView<P>,
    candidate: Candidate,
    error: ErrorView,
)
    requires
        connects(before, after, candidate, Err(error)),
        !(error is DatabaseError),
        error != ErrorView::Fatal(Fault::RootsNotSaved),
    ensures
        after == before,
{
}

/// Connecting a block, however it ends, moves neither the tip nor the transactions to be sent, and
/// leaves everything alone that was told to the store or to others before.
pub proof fn law_connecting_keeps_tip<P: ChainStore>(
    before: ChainView<P>,
    after: ChainView<P>,
    candidate: Candidate,
    result: Result<(), ErrorView>,
)
    requires
        connects(before, after, candidate, result),
    ensures
        after.best_block == before.best_block.validated_to(after.best_block.validation_index),
        after.broadcast_queue == before.broadcast_queue,
        after.ibd == before.ibd,
        after.chain_params == before.chain_params,
        after.store == before.store,
        before.events.is_prefix_of(after.events),
        before.notifications.is_prefix_of(after.notifications),
{
}

/// The validated part of the chain moves to the connected block or not at all, and it moves where
/// the accumulator does.
pub proof fn law_validation_moves_to_block<P: ChainStore>(
    before: ChainView<P>,
    after: ChainView<P>,
    candidate: Candidate,
    result: Result<(), ErrorView>,
)
    requires
        connects(before, after, candidate, result),
    ensures
        after.best_block == before.best_block || after.best_block.validation_index
            == block_hash_of(candidate.block.header),
        after.acc != before.acc ==> after.best_block.validation_index == block_hash_of(
            candidate.block.header,
        ),
{
}

/// What the checks on a block that passes them all lead to: it follows the block that was validated
/// before, and the accumulator is the one that the checks computed.
proof fn lemma_valid_block<P: ChainStore>(
    state: ChainView<P>,
    candidate: Candidate,
    valid: ValidBlockView,
)
    requires
        prepares(state, candidate, Ok(PreparedView::Valid(valid))),
    ensures
        valid.block == candidate.block,
        valid.hash == block_hash_of(candidate.block.header),
        candidate.block.header.prev_blockhash == state.best_block.validation_index,
        block_checked(
            state.acc,
            candidate.block,
            valid.height,
            candidate.proof,
            candidate.deleted,
            state.best_block.validation_index,
        ) == Ok::<StumpView, ErrorView>(valid.acc),
{
}

/// `after`, with `notification` gone out and waiting since `before`.
pub open spec fn notified_since<P: ChainStore>(
    before: ChainView<P>,
    after: ChainView<P>,
    notification: NotificationView,
) -> ChainView<P> {
    ChainView {
        notifications: after.notifications.push(notification),
        events: before.events.push(Event::Notify(notification)) + after.events.skip(
            before.events.len() as int,
        ),
        ..after
    }
}

/// Making the checks on a block and then carrying out what they led to is connecting it, but that
/// the caller holds the notification between the two, before the store is told anything, in the
/// place of its going out first.
pub proof fn law_prepare_and_commit_connect<P: ChainStore>(
    before: ChainView<P>,
    after: ChainView<P>,
    candidate: Candidate,
    prepared: PreparedView,
    result: Result<(), ErrorView>,
)
    requires
        prepares(before, candidate, Ok(prepared)),
        commits(before, after, prepared, result),
    ensures
        match prepared.notification() {
            None => connects(before, after, candidate, result),
            Some(notification) => connects(
                before,
                notified_since(before, after, notification),
                candidate,
                result,
            ),
        },
{
    match prepared {
        PreparedView::Valid(valid) => {
            let notification = NotificationView::NewBlock(valid.block, valid.height);
            lemma_commit_after_notification(before, after, valid, result, notification);
            let told = notified_since(before, after, notification);
            assert(connects_prepared(before, told, Ok(prepared), result));
        },
        _ => {
            assert(connects_prepared(before, after, Ok(prepared), result));
        },
    }
}

/// A notification that goes out first changes nothing of what follows.
proof fn lemma_commit_after_notification<P: ChainStore>(
    before: ChainView<P>,
    after: ChainView<P>,
    valid: ValidBlockView,
    result: Result<(), ErrorView>,
    notification: NotificationView,
)
    requires
        commits_valid(before, after, valid, result),
    ensures
        commits_valid(
            before.notifying(notification),
            notified_since(before, after, notification),
            valid,
            result,
        ),
{
    let header = DiskBlockHeader::FullyValid(valid.block.header, valid.height);
    let start = before.notifying(notification);
    let told = notified_since(before, after, notification);
    let first = choose|reply: Result<(), StoreError>| #[trigger]
        answered(before.store, Event::Header(header, valid.height, reply)) && {
            let wrote = before.wrote(Event::Header(header, valid.height, reply));
            match reply {
                Err(error) => refuses(wrote, after, ErrorView::DatabaseError(error), result),
                Ok(()) => commits_height(wrote, after, valid.hash, valid.acc, result),
            }
        };
    assert(answered(start.store, Event::Header(header, valid.height, first)));
    let saved = before.wrote(Event::Header(header, valid.height, first));
    let told_saved = start.wrote(Event::Header(header, valid.height, first));
    if first is Err {
        assert(told =~= told_saved);
    } else {
        let second = choose|reply: Result<(), StoreError>| #[trigger]
            answered(saved.store, Event::Height(saved.best_block, reply)) && {
                let wrote = saved.wrote(Event::Height(saved.best_block, reply));
                match reply {
                    Err(error) => refuses(wrote, after, ErrorView::DatabaseError(error), result),
                    Ok(()) => saves_roots(wrote.validated(valid.hash, valid.acc), after, result),
                }
            };
        assert(answered(told_saved.store, Event::Height(told_saved.best_block, second)));
        let kept = saved.wrote(Event::Height(saved.best_block, second));
        let told_kept = told_saved.wrote(Event::Height(told_saved.best_block, second));
        if second is Err {
            assert(told =~= told_kept);
        } else {
            let validated = kept.validated(valid.hash, valid.acc);
            let told_validated = told_kept.validated(valid.hash, valid.acc);
            let third = choose|reply: Result<(), StoreError>| #[trigger]
                answered(validated.store, Event::Roots(validated.acc.encoded(), reply)) && after
                    == validated.wrote(Event::Roots(validated.acc.encoded(), reply)) && result
                    == roots_saved(reply);
            assert(answered(
                told_validated.store,
                Event::Roots(told_validated.acc.encoded(), third),
            ));
            assert(told =~= told_validated.wrote(
                Event::Roots(told_validated.acc.encoded(), third),
            ));
        }
        assert(commits_height(told_saved, told, valid.hash, valid.acc, result));
    }
}

/// Whatever goes out while a block is connected, the notification goes out first: before the store
/// is told anything, and only once. Nothing at all goes out for a block without one.
pub proof fn law_notification_goes_first<P: ChainStore>(
    before: ChainView<P>,
    after: ChainView<P>,
    candidate: Candidate,
    result: Result<(), ErrorView>,
)
    requires
        connects(before, after, candidate, result),
        after.events != before.events,
    ensures
        exists|height: u32|
            {
                &&& after.notifications == before.notifications.push(
                    #[trigger] new_block(candidate, height),
                )
                &&& after.events.len() > before.events.len() + 1
                &&& after.events[before.events.len() as int] == Event::Notify(
                    new_block(candidate, height),
                )
                &&& forall|k: int|
                    before.events.len() < k < after.events.len() ==> !(#[trigger] after.events[k]
                        is Notify)
            },
{
    let prepared = choose|prepared: Result<PreparedView, ErrorView>| #[trigger]
        prepares(before, candidate, prepared) && connects_prepared(
            before,
            after,
            prepared,
            result,
        );
    let valid = prepared->Ok_0->Valid_0;
    lemma_valid_block(before, candidate, valid);
    let told = new_block(candidate, valid.height);
    let start = before.notifying(told);
    assert(commits_valid(start, after, valid, result));
    lemma_commit_writes(start, after, valid, result);
    assert(after.events[before.events.len() as int] == start.events[before.events.len() as int]);
    assert forall|k: int| before.events.len() < k < after.events.len() implies !(
    #[trigger] after.events[k] is Notify) by {
        assert(start.events.len() <= k);
    }
}

/// The notification for a block that is connected at `height`.
pub open spec fn new_block(candidate: Candidate, height: u32) -> NotificationView {
    NotificationView::NewBlock(candidate.block, height)
}

/// Taking a valid block into the chain tells the store something, and nobody else anything.
proof fn lemma_commit_writes<P: ChainStore>(
    before: ChainView<P>,
    after: ChainView<P>,
    valid: ValidBlockView,
    result: Result<(), ErrorView>,
)
    requires
        commits_valid(before, after, valid, result),
    ensures
        after.notifications == before.notifications,
        before.events.is_prefix_of(after.events),
        after.events.len() > before.events.len(),
        forall|k: int|
            before.events.len() <= k < after.events.len() ==> !(#[trigger] after.events[k]
                is Notify),
{
}

/// A block that is connected anew was told to those who listen, follows the block that was
/// validated before, and left its header, the best chain as it was and the new accumulator in the
/// store, all in this order.
pub proof fn law_connected_block_is_kept<P: ChainStore>(
    before: ChainView<P>,
    after: ChainView<P>,
    candidate: Candidate,
)
    requires
        connects(before, after, candidate, Ok(())),
        after.events != before.events,
    ensures
        candidate.block.header.prev_blockhash == before.best_block.validation_index,
        after.best_block == before.best_block.validated_to(block_hash_of(candidate.block.header)),
        exists|height: u32|
            {
                &&& #[trigger] block_checked(
                    before.acc,
                    candidate.block,
                    height,
                    candidate.proof,
                    candidate.deleted,
                    before.best_block.validation_index,
                ) == Ok::<StumpView, ErrorView>(after.acc)
                &&& after.notifications == before.notifications.push(new_block(candidate, height))
                &&& after.events == before.events.push(
                    Event::Notify(new_block(candidate, height)),
                ).push(
                    Event::Header(
                        DiskBlockHeader::FullyValid(candidate.block.header, height),
                        height,
                        Ok(()),
                    ),
                ).push(Event::Height(before.best_block, Ok(()))).push(
                    Event::Roots(after.acc.encoded(), Ok(())),
                )
            },
{
    let prepared = choose|prepared: Result<PreparedView, ErrorView>| #[trigger]
        prepares(before, candidate, prepared) && connects_prepared(
            before,
            after,
            prepared,
            Ok(()),
        );
    let valid = prepared->Ok_0->Valid_0;
    lemma_valid_block(before, candidate, valid);
    lemma_committed(before.notifying(new_block(candidate, valid.height)), after, valid);
}

/// A header that is refused, and not because the store failed, changes nothing.
pub proof fn law_refused_header_changes_nothing<P: ChainStore>(
    before: ChainView<P>,
    after: ChainView<P>,
    header: BlockHeader,
    error: ErrorView,
)
    requires
        accepts(before, after, header, Err(error)),
        !(error is DatabaseError),
    ensures
        after == before,
{
}

/// A header that is accepted is either known, and then nothing changes, or it becomes the tip: it
/// follows the tip that was, one block higher, and is in the store. The validated part of the
/// chain stays as it is.
pub proof fn law_accepted_header_is_tip<P: ChainStore>(
    before: ChainView<P>,
    after: ChainView<P>,
    header: BlockHeader,
)
    requires
        accepts(before, after, header, Ok(())),
        after != before,
    ensures
        header.prev_blockhash == before.best_block.best_block,
        before.best_block.depth < u32::MAX,
        after.best_block == before.best_block.with_block(
            block_hash_of(header),
            (before.best_block.depth + 1) as u32,
        ),
        after.events == before.events.push(
            Event::Header(
                DiskBlockHeader::HeadersOnly(header, (before.best_block.depth + 1) as u32),
                (before.best_block.depth + 1) as u32,
                Ok(()),
            ),
        ),
        after == (ChainView { best_block: after.best_block, events: after.events, ..before }),
{
    let tip = before.best_block;
    let found = choose|found: Result<BlockHeader, ErrorView>| #[trigger]
        reads_header(before.store, block_hash_of(header), found) && accepts_found(
            before,
            after,
            header,
            found,
            Ok(()),
        );
    let height = (tip.depth + 1) as u32;
    let parent = choose|parent: Result<BlockHeader, ErrorView>| #[trigger]
        reads_header(before.store, tip.best_block, parent) && accepts_after(
            before,
            after,
            header,
            height,
            parent,
            Ok(()),
        );
    let (now, work) = choose|now: u64, work: Result<nat, ErrorView>|
        clock_said(now) && #[trigger] requires_work(
            before.store,
            before.chain_params,
            parent->Ok_0,
            height,
            now,
            work,
        ) && accepts_with_work(before, after, header, height, work, Ok(()));
    let disk = DiskBlockHeader::HeadersOnly(header, height);
    let reply = choose|reply: Result<(), StoreError>| #[trigger]
        answered(before.store, Event::Header(disk, height, reply)) && {
            let wrote = before.wrote(Event::Header(disk, height, reply));
            match reply {
                Err(error) => refuses(wrote, after, ErrorView::DatabaseError(error), Ok(())),
                Ok(()) => after == (ChainView {
                    best_block: wrote.best_block.with_block(block_hash_of(header), height),
                    ..wrote
                }),
            }
        };
    lemma_all_well(reply);
}

/// Accepting a header, however it ends, moves the validated part of the chain by nothing.
pub proof fn law_accepting_keeps_validation<P: ChainStore>(
    before: ChainView<P>,
    after: ChainView<P>,
    header: BlockHeader,
    result: Result<(), ErrorView>,
)
    requires
        accepts(before, after, header, result),
    ensures
        after.best_block.validation_index == before.best_block.validation_index,
        after == (ChainView { best_block: after.best_block, events: after.events, ..before }),
        before.events.is_prefix_of(after.events),
{
}

/// A flush that succeeds leaves the accumulator in the store, makes the store durable, and leaves
/// the best chain in it, in this order. The chain itself stays as it is.
pub proof fn law_flush_keeps_chain<P: ChainStore>(before: ChainView<P>, after: ChainView<P>)
    requires
        flushes(before, after, Ok(())),
    ensures
        after == (ChainView { events: after.events, ..before }),
        after.events == before.events.push(Event::Roots(before.acc.encoded(), Ok(()))).push(
            Event::Flush(Ok(())),
        ).push(Event::Height(before.best_block, Ok(()))),
{
    let (saved, saved_reply) = choose|saved: ChainView<P>, reply: Result<(), ErrorView>| #[trigger]
        saves_roots(before, saved, reply) && match reply {
            Err(error) => refuses(saved, after, error, Ok(())),
            Ok(()) => makes_durable(saved, after, Ok(())),
        };
    assert(saved_reply->Ok_0 == ());
    lemma_roots_saved(before, saved);
    let flushed = choose|reply: Result<(), StoreError>| #[trigger]
        answered(saved.store, Event::Flush(reply)) && {
            let wrote = saved.wrote(Event::Flush(reply));
            match reply {
                Err(error) => refuses(wrote, after, ErrorView::DatabaseError(error), Ok(())),
                Ok(()) => saves_height(wrote, after, Ok(())),
            }
        };
    lemma_all_well(flushed);
    let durable = saved.wrote(Event::Flush(flushed));
    let kept = choose|reply: Result<(), StoreError>| #[trigger]
        answered(durable.store, Event::Height(durable.best_block, reply)) && after
            == durable.wrote(Event::Height(durable.best_block, reply)) && Ok::<(), ErrorView>(
            (),
        ) == stored(reply);
    lemma_all_well(kept);
}

/// A chain that was flushed is taken up where it stood, where the store gives back the accumulator
/// and the best chain that it was given.
pub proof fn law_flushed_chain_resumes<P: ChainStore>(
    before: ChainView<P>,
    roots: Vec<u8>,
    best_chain: BestChain,
    network: Network,
    acc: StumpView,
    state: ChainView<P>,
)
    requires
        roots@ == before.acc.encoded(),
        best_chain@ == before.best_block,
        loaded_acc(bytes_of(Ok(Some(roots)))) == Ok::<StumpView, Fault>(acc),
        resumed(acc, Ok(Some(best_chain)), before.store, network, Ok(state)),
    ensures
        state.acc == before.acc,
        state.best_block == before.best_block,
        state.store == before.store,
{
    law_saved_acc_loads(before.acc);
}

/// The chain after each of `transactions` was queued to be sent to peers, one after the other.
pub open spec fn queueing_all<P: ChainStore>(
    state: ChainView<P>,
    transactions: Seq<TransactionView>,
) -> ChainView<P>
    decreases transactions.len(),
{
    if transactions.len() == 0 {
        state
    } else {
        queueing_all(state, transactions.drop_last()).queueing(transactions.last())
    }
}

/// Transactions that are queued after the queue was emptied are what is taken next: all of them, in
/// the order in which they were queued. After that the queue is empty again, and nothing but the
/// queue ever changed.
pub proof fn law_queue_keeps_order<P: ChainStore>(
    state: ChainView<P>,
    transactions: Seq<TransactionView>,
)
    requires
        state.broadcast_queue.len() == 0,
    ensures
        queueing_all(state, transactions).broadcast_queue == transactions,
        queueing_all(state, transactions) == (ChainView { broadcast_queue: transactions, ..state }),
        queueing_all(state, transactions).unqueued() == state,
        state.unqueued().broadcast_queue.len() == 0,
    decreases transactions.len(),
{
    if transactions.len() > 0 {
        law_queue_keeps_order(state, transactions.drop_last());
        assert(transactions.drop_last().push(transactions.last()) =~= transactions);
    } else {
        assert(state.broadcast_queue =~= transactions);
    }
    assert(state.broadcast_queue =~= seq![]);
}

/// `after` is what `before` can become by one request.
pub open spec fn is_step<P: ChainStore>(before: ChainView<P>, after: ChainView<P>) -> bool {
    ||| exists|candidate: Candidate, result: Result<(), ErrorView>| #[trigger]
        connects(before, after, candidate, result)
    ||| exists|prepared: PreparedView, result: Result<(), ErrorView>| #[trigger]
        commits(before, after, prepared, result)
    ||| exists|header: BlockHeader, result: Result<(), ErrorView>| #[trigger]
        accepts(before, after, header, result)
    ||| exists|result: Result<(), ErrorView>| #[trigger] flushes(before, after, result)
    ||| exists|result: Result<(), ErrorView>| #[trigger] saves_roots(before, after, result)
    ||| exists|transaction: TransactionView| after == #[trigger] before.queueing(transaction)
    ||| exists|ibd: bool| after == #[trigger] before.with_ibd(ibd)
    ||| after == before.unqueued()
    ||| after == before.unnotified()
}

/// No request changes the rules of the network or the store, and what went out stays so.
pub proof fn law_rules_never_change<P: ChainStore>(states: Seq<ChainView<P>>)
    requires
        states.len() > 0,
        forall|k: int|
            #![trigger states[k]]
            0 <= k < states.len() - 1 ==> is_step(states[k], states[k + 1]),
    ensures
        states.last().chain_params == states[0].chain_params,
        states.last().store == states[0].store,
        states[0].events.is_prefix_of(states.last().events),
    decreases states.len(),
{
    if states.len() > 1 {
        let front = states.drop_last();
        assert forall|k: int| #![trigger front[k]] 0 <= k < front.len() - 1 implies is_step(
            front[k],
            front[k + 1],
        ) by {
            assert(states[k] == front[k]);
            assert(states[k + 1] == front[k + 1]);
        }
        law_rules_never_change(front);
        let last = states.len() - 2;
        assert(is_step(states[last], states[last + 1]));
        lemma_step_keeps_rules(states[last], states[last + 1]);
        assert(front.last() == states[last]);
        assert(states[last].events.is_prefix_of(states[last + 1].events));
        assert(states[0].events =~= states.last().events.subrange(
            0,
            states[0].events.len() as int,
        ));
    }
}

proof fn lemma_step_keeps_rules<P: ChainStore>(before: ChainView<P>, after: ChainView<P>)
    requires
        is_step(before, after),
    ensures
        after.chain_params == before.chain_params,
        after.store == before.store,
        before.events.is_prefix_of(after.events),
{
}

} // verus!
