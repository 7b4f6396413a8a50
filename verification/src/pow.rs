//! How much work the next block must have.

use vstd::prelude::*;

use crate::params::{are_params_of, ChainParams, Network};
use crate::primitives::BlockHeader;
use crate::uint::{compact_bits, compact_value, two_256, Uint256};
use crate::uint::{law_compact_form_keeps_order, law_compact_form_truncates};

verus! {

/// How many blocks make an epoch.
pub const EPOCH: u32 = 2016;

/// After how many seconds without a block the least work is enough, on networks that allow it.
pub const MIN_DIFF_SECONDS: u64 = 1200;

/// The target of an epoch, in compact form: the target of the last block of the one before,
/// scaled by how long that epoch took. What does not fit in 256 bits is cut off before the
/// division.
pub open spec fn next_bits(last: BlockHeader, first: BlockHeader, timespan: u64) -> nat {
    let actual = (last.time - first.time) as nat;
    compact_bits(((compact_value(last.bits) * actual) % two_256()) / timespan as nat)
}

/// The target of the next epoch, in compact form, from the first and the last block of this one.
pub fn next_work(last_block: &BlockHeader, first_block: &BlockHeader, params: ChainParams) -> (bits:
    u32)
    requires
        first_block.time <= last_block.time,
        params.pow_target_timespan > 0,
    ensures
        bits as nat == next_bits(*last_block, *first_block, params.pow_target_timespan),
{
    let current_target = last_block.target();
    let expected_timespan = Uint256::from_u64(params.pow_target_timespan);
    let actual_timespan: u32 = last_block.time - first_block.time;
    let scaled = current_target.mul_u32(actual_timespan);
    scaled.quotient(&expected_timespan).to_compact()
}

/// The least work is enough for the block after `last`: the network allows it, and `now`, in
/// seconds since the Unix epoch, is more than twenty minutes after `last`.
pub open spec fn min_work_suffices(params: ChainParams, last: BlockHeader, now: u64) -> bool {
    params.pow_allow_min_diff && now > last.time + MIN_DIFF_SECONDS
}

/// The block at `height` starts an epoch with a new target.
pub open spec fn starts_epoch(params: ChainParams, height: u32) -> bool {
    !params.pow_allow_no_retarget && height % EPOCH == 0
}

/// The target of a new epoch: what the one before it asks for, but never below the largest
/// target.
pub open spec fn epoch_target(params: ChainParams, last: BlockHeader, first: BlockHeader) -> nat {
    let asked = compact_value(next_bits(last, first, params.pow_target_timespan) as u32);
    if asked > params.max_target@ {
        asked
    } else {
        params.max_target@
    }
}

/// Whether the least work is enough for the block after `last`.
pub fn allows_min_work(params: &ChainParams, last: &BlockHeader, now: u64) -> (answer: bool)
    ensures
        answer == min_work_suffices(*params, *last, now),
{
    params.pow_allow_min_diff && now > last.time as u64 + MIN_DIFF_SECONDS
}

/// Whether the block at `height` starts an epoch with a new target.
pub fn is_epoch_start(params: &ChainParams, height: u32) -> (answer: bool)
    ensures
        answer == starts_epoch(*params, height),
{
    !params.pow_allow_no_retarget && height % EPOCH == 0
}

/// The target of a new epoch.
pub fn new_epoch_target(params: &ChainParams, last: &BlockHeader, first: &BlockHeader) -> (target:
    Uint256)
    requires
        first.time <= last.time,
        params.pow_target_timespan > 0,
    ensures
        target@ == epoch_target(*params, *last, *first),
{
    let bits: u32 = next_work(last, first, *params);
    let asked = Uint256::from_compact(bits);
    if asked.exceeds(&params.max_target) {
        asked
    } else {
        params.max_target
    }
}

/// `std::time::SystemTime::elapsed` since the Unix epoch, in whole seconds. Nothing is promised
/// of it; a clock that stands before the Unix epoch counts as zero.
#[verifier::external_body]
pub(crate) fn seconds_now() -> (now: u64) {
    std::time::UNIX_EPOCH.elapsed().map_or(0, |elapsed| elapsed.as_secs())
}

/// `now` can be what the clock said when it was read.
pub closed spec fn clock_said(now: u64) -> bool {
    call_ensures(seconds_now, (), now)
}

/// Reads the clock: whole seconds since the Unix epoch.
pub fn read_clock() -> (now: u64)
    ensures
        clock_said(now),
{
    seconds_now()
}

/// What the clock said is what it was read as, not moved by anything.
pub(crate) proof fn law_clock_is_not_moved(now: u64)
    requires
        clock_said(now),
    ensures
        call_ensures(seconds_now, (), now),
{
}

/// An epoch that took exactly as long as it should keeps the target, where the target has the
/// compact form that is written for it and scaling it fits in 256 bits.
pub proof fn law_on_time_epoch_keeps_bits(
    last: BlockHeader,
    first: BlockHeader,
    timespan: u64,
)
    requires
        timespan > 0,
        last.time - first.time == timespan,
        compact_bits(compact_value(last.bits)) == last.bits,
        compact_value(last.bits) * timespan < two_256(),
    ensures
        next_bits(last, first, timespan) == last.bits,
{
    let target = compact_value(last.bits);
    let scaled = target * timespan as nat;
    assert(scaled % two_256() == scaled) by {
        vstd::arithmetic::div_mod::lemma_small_mod(scaled, two_256());
    }
    assert(scaled / timespan as nat == target) by {
        vstd::arithmetic::div_mod::lemma_div_by_multiple(target as int, timespan as int);
    }
}

/// The target of a new epoch is never below the largest target of the network.
pub proof fn law_epoch_target_at_least_max(
    params: ChainParams,
    last: BlockHeader,
    first: BlockHeader,
)
    ensures
        epoch_target(params, last, first) >= params.max_target@,
{
}

/// An epoch that took longer never makes the next target harder, where scaling the target fits in
/// 256 bits.
pub proof fn law_slower_epoch_is_no_harder(
    params: ChainParams,
    last: BlockHeader,
    first: BlockHeader,
    slower_last: BlockHeader,
    slower_first: BlockHeader,
)
    requires
        params.pow_target_timespan > 0,
        slower_last.bits == last.bits,
        0 <= last.time - first.time <= slower_last.time - slower_first.time,
        compact_value(last.bits) * (slower_last.time - slower_first.time) < two_256(),
    ensures
        epoch_target(params, last, first) <= epoch_target(params, slower_last, slower_first),
{
    let target = compact_value(last.bits);
    let fast = (last.time - first.time) as nat;
    let slow = (slower_last.time - slower_first.time) as nat;
    let timespan = params.pow_target_timespan as nat;
    assert(target * fast <= target * slow) by (nonlinear_arith)
        requires
            fast <= slow,
    ;
    vstd::arithmetic::div_mod::lemma_small_mod(target * fast, two_256());
    vstd::arithmetic::div_mod::lemma_small_mod(target * slow, two_256());
    let (a, b) = (target * fast / timespan, target * slow / timespan);
    vstd::arithmetic::div_mod::lemma_div_is_ordered(
        (target * fast) as int,
        (target * slow) as int,
        timespan as int,
    );
    assert(b <= target * slow) by (nonlinear_arith)
        requires
            b == target * slow / timespan,
            timespan >= 1,
    ;
    law_compact_form_truncates(a);
    law_compact_form_truncates(b);
    law_compact_form_keeps_order(a, b);
}

/// Regtest never changes its target.
pub proof fn law_regtest_never_retargets(params: ChainParams, height: u32)
    requires
        are_params_of(params, Network::Regtest),
    ensures
        !starts_epoch(params, height),
{
}

} // verus!
