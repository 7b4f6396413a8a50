//! What the chain reads from its store.

use vstd::prelude::*;

use crate::error::{seen, BlockchainError, ErrorView, Fault, StoreError};
use crate::hash::BlockHash;
use crate::params::ChainParams;
use crate::pow::{allows_min_work, is_epoch_start, new_epoch_target};
use crate::pow::{epoch_target, min_work_suffices, starts_epoch, EPOCH};
use crate::primitives::BlockHeader;
use crate::store::{ChainStore, DiskBlockHeader, Journal};
use crate::uint::{compact_bits, compact_value, two_256, Uint256};

verus! {

/// What is found where a store answers so.
pub open spec fn found_in<T>(reply: Result<Option<T>, StoreError>) -> Result<T, ErrorView> {
    match reply {
        Ok(Some(value)) => Ok(value),
        Ok(None) => Err(ErrorView::BlockNotPresent),
        Err(error) => Err(ErrorView::DatabaseError(error)),
    }
}

/// What is found where a store answers so.
pub fn find<T>(reply: Result<Option<T>, StoreError>) -> (found: Result<T, BlockchainError>)
    ensures
        seen(found) == found_in(reply),
{
    match reply {
        Ok(Some(value)) => Ok(value),
        Ok(None) => Err(BlockchainError::BlockNotPresent),
        Err(error) => Err(BlockchainError::DatabaseError(error)),
    }
}

/// `found` can be what asking `store` for the header of `hash` gives.
pub open spec fn reads_disk_header<P: ChainStore>(
    store: P,
    hash: BlockHash,
    found: Result<DiskBlockHeader, ErrorView>,
) -> bool {
    exists|reply: Result<Option<DiskBlockHeader>, StoreError>| #[trigger]
        call_ensures(P::get_header, (&store, &hash), reply) && found == found_in(reply)
}

/// The header alone, where one was found.
pub open spec fn header_found(found: Result<DiskBlockHeader, ErrorView>) -> Result<
    BlockHeader,
    ErrorView,
> {
    match found {
        Ok(header) => Ok(header.header_of()),
        Err(error) => Err(error),
    }
}

/// `found` can be what asking `store` for the bare header of `hash` gives.
pub open spec fn reads_header<P: ChainStore>(
    store: P,
    hash: BlockHash,
    found: Result<BlockHeader, ErrorView>,
) -> bool {
    exists|header: Result<DiskBlockHeader, ErrorView>| #[trigger]
        reads_disk_header(store, hash, header) && found == header_found(header)
}

/// `found` can be what asking `store` for the block at `height` gives.
pub open spec fn reads_hash<P: ChainStore>(
    store: P,
    height: u32,
    found: Result<BlockHash, ErrorView>,
) -> bool {
    exists|reply: Result<Option<BlockHash>, StoreError>| #[trigger]
        call_ensures(P::get_block_hash, (&store, height), reply) && found == found_in(reply)
}

/// `found` can be what asking `store` for the header at a height that is on the chain gives.
pub open spec fn reads_header_at<P: ChainStore>(
    store: P,
    height: u32,
    found: Result<BlockHeader, Fault>,
) -> bool {
    exists|block: Result<BlockHash, ErrorView>| #[trigger]
        reads_hash(store, height, block) && reads_header_of(store, block, found)
}

/// `found` can be what asking `store` for the header of a block on the chain gives, where looking
/// for the block gave `block`.
pub open spec fn reads_header_of<P: ChainStore>(
    store: P,
    block: Result<BlockHash, ErrorView>,
    found: Result<BlockHeader, Fault>,
) -> bool {
    match block {
        Err(_) => found == Err::<BlockHeader, Fault>(Fault::MissingBlock),
        Ok(hash) => reads_known_header(store, hash, found),
    }
}

/// `found` can be what asking `store` for the header of a block that is on the chain gives.
pub open spec fn reads_known_header<P: ChainStore>(
    store: P,
    hash: BlockHash,
    found: Result<BlockHeader, Fault>,
) -> bool {
    exists|header: Result<BlockHeader, ErrorView>| #[trigger]
        reads_header(store, hash, header) && found == known_header(header)
}

/// The header of a block that is on the chain, where looking for it gave `header`.
pub open spec fn known_header(header: Result<BlockHeader, ErrorView>) -> Result<
    BlockHeader,
    Fault,
> {
    match header {
        Ok(header) => Ok(header),
        Err(_) => Err(Fault::MissingHeader),
    }
}

/// The target of a new epoch, from what was found of its neighbours.
pub open spec fn epoch_work(
    params: ChainParams,
    first: BlockHeader,
    last: BlockHeader,
) -> Result<nat, ErrorView> {
    if first.time > last.time {
        Err(ErrorView::Fatal(Fault::TimeReversed))
    } else {
        Ok(epoch_target(params, last, first))
    }
}

/// `work` can be the target that is required at `height`, where an epoch starts, of a chain whose
/// headers are in `store`.
pub open spec fn requires_epoch_work<P: ChainStore>(
    store: P,
    params: ChainParams,
    height: u32,
    work: Result<nat, ErrorView>,
) -> bool {
    if height < EPOCH {
        work == Err::<nat, ErrorView>(ErrorView::Fatal(Fault::EpochBeforeGenesis))
    } else {
        exists|first: Result<BlockHeader, Fault>| #[trigger]
            reads_header_at(store, (height - EPOCH) as u32, first) && match first {
                Err(fault) => work == Err::<nat, ErrorView>(ErrorView::Fatal(fault)),
                Ok(first) => exists|last: Result<BlockHeader, Fault>| #[trigger]
                    reads_header_at(store, (height - 1) as u32, last) && match last {
                        Err(fault) => work == Err::<nat, ErrorView>(ErrorView::Fatal(fault)),
                        Ok(last) => work == epoch_work(params, first, last),
                    },
            }
    }
}

/// `work` can be the target that is required at `now` of the block at `height`, which follows
/// `last`: the largest target where the least work is enough, a new target where an epoch starts,
/// and else the target of `last`.
pub open spec fn requires_work<P: ChainStore>(
    store: P,
    params: ChainParams,
    last: BlockHeader,
    height: u32,
    now: u64,
    work: Result<nat, ErrorView>,
) -> bool {
    if min_work_suffices(params, last, now) {
        work == Ok::<nat, ErrorView>(params.max_target@)
    } else if starts_epoch(params, height) {
        requires_epoch_work(store, params, height, work)
    } else {
        work == Ok::<nat, ErrorView>(compact_value(last.bits))
    }
}

/// The header of `hash` with what is known of its block.
pub fn disk_header<P: ChainStore>(store: &Journal<P>, hash: &BlockHash) -> (found: Result<
    DiskBlockHeader,
    BlockchainError,
>)
    ensures
        reads_disk_header(store.store(), *hash, seen(found)),
{
    find(store.get_header(hash))
}

/// The header of `hash`.
pub fn header<P: ChainStore>(store: &Journal<P>, hash: &BlockHash) -> (found: Result<
    BlockHeader,
    BlockchainError,
>)
    ensures
        reads_header(store.store(), *hash, seen(found)),
{
    let found = disk_header(store, hash);
    let ghost disk = seen(found);
    assert(reads_disk_header(store.store(), *hash, disk));
    match found {
        Ok(header) => Ok(header.header()),
        Err(error) => Err(error),
    }
}

/// The block at `height`.
pub fn block_at<P: ChainStore>(store: &Journal<P>, height: u32) -> (found: Result<
    BlockHash,
    BlockchainError,
>)
    ensures
        reads_hash(store.store(), height, seen(found)),
{
    find(store.get_block_hash(height))
}

/// The header at a height that is on the chain.
pub fn header_at<P: ChainStore>(store: &Journal<P>, height: u32) -> (found: Result<
    BlockHeader,
    Fault,
>)
    ensures
        reads_header_at(store.store(), height, found),
{
    let block = block_at(store, height);
    let ghost block_seen = seen(block);
    let found = match block {
        Err(_) => Err(Fault::MissingBlock),
        Ok(hash) => {
            let found = header(store, &hash);
            let ghost header_seen = seen(found);
            assert(reads_header(store.store(), hash, header_seen));
            match found {
                Ok(header) => Ok(header),
                Err(_) => Err(Fault::MissingHeader),
            }
        },
    };
    assert(reads_hash(store.store(), height, block_seen));
    assert(reads_header_of(store.store(), block_seen, found));
    found
}

/// The target that an epoch which starts at `height` requires.
fn epoch_work_at<P: ChainStore>(store: &Journal<P>, params: &ChainParams, height: u32) -> (work:
    Result<Uint256, BlockchainError>)
    requires
        params.pow_target_timespan > 0,
    ensures
        requires_epoch_work(store.store(), *params, height, crate::error::viewed(work)),
{
    if height < EPOCH {
        return Err(BlockchainError::Fatal(Fault::EpochBeforeGenesis));
    }
    let first_found = header_at(store, height - EPOCH);
    assert(reads_header_at(store.store(), (height - EPOCH) as u32, first_found));
    match first_found {
        Err(fault) => Err(BlockchainError::Fatal(fault)),
        Ok(first) => {
            let last_found = header_at(store, height - 1);
            assert(reads_header_at(store.store(), (height - 1) as u32, last_found));
            match last_found {
                Err(fault) => Err(BlockchainError::Fatal(fault)),
                Ok(last) => if first.time > last.time {
                    Err(BlockchainError::Fatal(Fault::TimeReversed))
                } else {
                    Ok(new_epoch_target(params, &last, &first))
                },
            }
        },
    }
}

/// The target that is required at `now`, in seconds since the Unix epoch, of the block at `height`,
/// which follows `last`.
pub fn work_at<P: ChainStore>(
    store: &Journal<P>,
    params: &ChainParams,
    last: &BlockHeader,
    height: u32,
    now: u64,
) -> (work: Result<Uint256, BlockchainError>)
    requires
        params.pow_target_timespan > 0,
    ensures
        requires_work(store.store(), *params, *last, height, now, crate::error::viewed(work)),
{
    if allows_min_work(params, last, now) {
        return Ok(params.max_target);
    }
    if is_epoch_start(params, height) {
        return epoch_work_at(store, params, height);
    }
    Ok(last.target())
}

/// Within an epoch the target stays, on every network: where the height is no multiple of 2016, or
/// targets never change, and where the least work is not allowed or twenty minutes have not passed
/// since `last`, exactly the target of `last` is required.
pub proof fn law_target_stays_within_epoch<P: ChainStore>(
    store: P,
    params: ChainParams,
    last: BlockHeader,
    height: u32,
    now: u64,
    work: Result<nat, ErrorView>,
)
    requires
        requires_work(store, params, last, height, now, work),
        !params.pow_allow_min_diff || now <= last.time + 1200,
        params.pow_allow_no_retarget || height % 2016 != 0,
    ensures
        work == Ok::<nat, ErrorView>(compact_value(last.bits)),
{
}

/// Where the least work is allowed and more than twenty minutes have passed since `last`, exactly
/// the largest target of the network is required, at every height.
pub proof fn law_least_work_after_twenty_minutes<P: ChainStore>(
    store: P,
    params: ChainParams,
    last: BlockHeader,
    height: u32,
    now: u64,
    work: Result<nat, ErrorView>,
)
    requires
        requires_work(store, params, last, height, now, work),
        params.pow_allow_min_diff,
        now > last.time + 1200,
    ensures
        work == Ok::<nat, ErrorView>(params.max_target@),
{
}

/// The header that stands in a record.
pub open spec fn recorded(record: DiskBlockHeader) -> BlockHeader {
    match record {
        DiskBlockHeader::FullyValid(header, _) => header,
        DiskBlockHeader::Orphan(header) => header,
        DiskBlockHeader::HeadersOnly(header, _) => header,
    }
}

/// `store` can say that a block stands at `height`, and that `header` is its header.
pub open spec fn keeps_header<P: ChainStore>(store: P, height: u32, header: BlockHeader) -> bool {
    exists|hash: BlockHash, record: DiskBlockHeader|
        #![trigger call_ensures(P::get_block_hash, (&store, height), Ok(Some(hash))), recorded(record)]
        {
            &&& call_ensures(P::get_block_hash, (&store, height), Ok(Some(hash)))
            &&& call_ensures(P::get_header, (&store, &hash), Ok(Some(record)))
            &&& header == recorded(record)
        }
}

/// `store` can say that no block stands at `height`, or fail to say.
pub open spec fn lacks_block<P: ChainStore>(store: P, height: u32) -> bool {
    exists|reply: Result<Option<BlockHash>, StoreError>|
        {
            &&& #[trigger] call_ensures(P::get_block_hash, (&store, height), reply)
            &&& reply is Err || reply->Ok_0 is None
        }
}

/// Looking up the block at a height says what the store said: the block, that there is none, or the
/// store's own failure.
pub proof fn law_block_at_height<P: ChainStore>(
    store: P,
    height: u32,
    found: Result<BlockHash, ErrorView>,
)
    requires
        reads_hash(store, height, found),
    ensures
        match found {
            Ok(hash) => call_ensures(P::get_block_hash, (&store, height), Ok(Some(hash))),
            Err(ErrorView::BlockNotPresent) => call_ensures(
                P::get_block_hash,
                (&store, height),
                Ok(None),
            ),
            Err(ErrorView::DatabaseError(error)) => call_ensures(
                P::get_block_hash,
                (&store, height),
                Err(error),
            ),
            Err(_) => false,
        },
        found is Err ==> lacks_block(store, height),
{
    let reply = choose|reply: Result<Option<BlockHash>, StoreError>| #[trigger]
        call_ensures(P::get_block_hash, (&store, height), reply) && found == found_in(reply);
    if let Ok(answer) = reply {
        if let Some(hash) = answer {
            assert(reply == Ok::<Option<BlockHash>, StoreError>(Some(hash)));
        } else {
            assert(reply == Ok::<Option<BlockHash>, StoreError>(None));
        }
    } else {
        assert(reply == Err::<Option<BlockHash>, StoreError>(reply->Err_0));
    }
}

/// `store` can say that a block stands at `height`, and have no header for it, or fail to say.
pub open spec fn lacks_header<P: ChainStore>(store: P, height: u32) -> bool {
    exists|hash: BlockHash, reply: Result<Option<DiskBlockHeader>, StoreError>|
        {
            &&& #[trigger] call_ensures(P::get_block_hash, (&store, height), Ok(Some(hash)))
            &&& #[trigger] call_ensures(P::get_header, (&store, &hash), reply)
            &&& reply is Err || reply->Ok_0 is None
        }
}

/// Looking up the header at a height that is on the chain says what the store said: first which
/// block stands there, and then what its header is. It is a fault of its own where there is no such
/// block, and another where that block has no header.
pub proof fn law_header_at_height<P: ChainStore>(
    store: P,
    height: u32,
    found: Result<BlockHeader, Fault>,
)
    requires
        reads_header_at(store, height, found),
    ensures
        match found {
            Ok(header) => keeps_header(store, height, header),
            Err(fault) => (fault == Fault::MissingBlock && lacks_block(store, height)) || (fault
                == Fault::MissingHeader && lacks_header(store, height)),
        },
{
    let block = choose|block: Result<BlockHash, ErrorView>| #[trigger]
        reads_hash(store, height, block) && reads_header_of(store, block, found);
    let reply = choose|reply: Result<Option<BlockHash>, StoreError>| #[trigger]
        call_ensures(P::get_block_hash, (&store, height), reply) && block == found_in(reply);
    if block is Ok {
        let hash = block->Ok_0;
        assert(reply == Ok::<Option<BlockHash>, StoreError>(Some(hash)));
        let header = choose|header: Result<BlockHeader, ErrorView>| #[trigger]
            reads_header(store, hash, header) && found == known_header(header);
        let disk = choose|disk: Result<DiskBlockHeader, ErrorView>| #[trigger]
            reads_disk_header(store, hash, disk) && header == header_found(disk);
        let answer = choose|answer: Result<Option<DiskBlockHeader>, StoreError>| #[trigger]
            call_ensures(P::get_header, (&store, &hash), answer) && disk == found_in(answer);
        assert(call_ensures(P::get_block_hash, (&store, height), Ok(Some(hash))));
        assert(call_ensures(P::get_header, (&store, &hash), answer));
        if disk is Ok {
            let record = disk->Ok_0;
            assert(answer == Ok::<Option<DiskBlockHeader>, StoreError>(Some(record)));
            assert(recorded(record) == header->Ok_0);
            assert(keeps_header(store, height, found->Ok_0));
        } else {
            assert(answer is Err || answer->Ok_0 is None);
            assert(lacks_header(store, height));
        }
    } else {
        assert(reply is Err || reply->Ok_0 is None);
        assert(lacks_block(store, height));
    }
}

/// Where an epoch starts, the target is that of the block before, scaled by how many seconds lie
/// between it and the block 2016 before this one, over the seconds that an epoch should take, in
/// the digits that a compact form keeps; but the largest target of the network where that is not
/// exceeded. Where there is no target, the store lacks one of the two blocks or its header, the
/// later one is older, or no epoch could end.
pub proof fn law_target_of_new_epoch<P: ChainStore>(
    store: P,
    params: ChainParams,
    last: BlockHeader,
    height: u32,
    now: u64,
    work: Result<nat, ErrorView>,
)
    requires
        requires_work(store, params, last, height, now, work),
        !params.pow_allow_min_diff || now <= last.time + 1200,
        !params.pow_allow_no_retarget,
        height % 2016 == 0,
    ensures
        match work {
            Ok(target) => height >= 2016 && exists|first: BlockHeader, end: BlockHeader|
                {
                    &&& #[trigger] keeps_header(store, (height - 2016) as u32, first)
                    &&& #[trigger] keeps_header(store, (height - 1) as u32, end)
                    &&& first.time <= end.time
                    &&& ({
                        let scaled = compact_value(end.bits) * (end.time - first.time) as nat;
                        let asked = compact_value(
                            compact_bits(
                                scaled % two_256() / params.pow_target_timespan as nat,
                            ) as u32,
                        );
                        target == if asked > params.max_target@ {
                            asked
                        } else {
                            params.max_target@
                        }
                    })
                },
            Err(ErrorView::Fatal(Fault::EpochBeforeGenesis)) => height == 0,
            Err(ErrorView::Fatal(Fault::MissingBlock)) => height >= 2016 && (lacks_block(
                store,
                (height - 2016) as u32,
            ) || lacks_block(store, (height - 1) as u32)),
            Err(ErrorView::Fatal(Fault::MissingHeader)) => height >= 2016 && (lacks_header(
                store,
                (height - 2016) as u32,
            ) || lacks_header(store, (height - 1) as u32)),
            Err(ErrorView::Fatal(Fault::TimeReversed)) => height >= 2016 && exists|
                first: BlockHeader,
                end: BlockHeader,
            |
                {
                    &&& #[trigger] keeps_header(store, (height - 2016) as u32, first)
                    &&& #[trigger] keeps_header(store, (height - 1) as u32, end)
                    &&& first.time > end.time
                },
            Err(_) => false,
        },
{
    if height >= 2016 {
        let first = choose|first: Result<BlockHeader, Fault>| #[trigger]
            reads_header_at(store, (height - EPOCH) as u32, first) && match first {
                Err(fault) => work == Err::<nat, ErrorView>(ErrorView::Fatal(fault)),
                Ok(first) => exists|last: Result<BlockHeader, Fault>| #[trigger]
                    reads_header_at(store, (height - 1) as u32, last) && match last {
                        Err(fault) => work == Err::<nat, ErrorView>(ErrorView::Fatal(fault)),
                        Ok(last) => work == epoch_work(params, first, last),
                    },
            };
        law_header_at_height(store, (height - EPOCH) as u32, first);
        if first is Ok {
            let end = choose|end: Result<BlockHeader, Fault>| #[trigger]
                reads_header_at(store, (height - 1) as u32, end) && match end {
                    Err(fault) => work == Err::<nat, ErrorView>(ErrorView::Fatal(fault)),
                    Ok(end) => work == epoch_work(params, first->Ok_0, end),
                };
            law_header_at_height(store, (height - 1) as u32, end);
            if end is Ok {
                assert(keeps_header(store, (height - 2016) as u32, first->Ok_0));
                assert(keeps_header(store, (height - 1) as u32, end->Ok_0));
            }
        }
    }
}

} // verus!
