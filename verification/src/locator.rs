//! The heights whose blocks tell a peer which chain this is.

use vstd::prelude::*;
use vstd::arithmetic::power2::{lemma2_to64, lemma_pow2_pos, lemma_pow2_unfold, pow2};

verus! {

/// How far below the tip the `k`-th height of a locator is: one block further for each of the
/// first ten, then in steps that double.
pub open spec fn locator_offset(k: nat) -> nat {
    if k <= 10 {
        k
    } else {
        8 + pow2((k - 9) as nat)
    }
}

/// The heights of a locator for a chain whose last block is at `top`: from the tip down as far as
/// the offsets stay above the first block, and then the first block.
pub open spec fn is_locator(top: u32, heights: Seq<u32>) -> bool {
    &&& heights.len() >= 1
    &&& heights.last() == 0
    &&& locator_offset((heights.len() - 1) as nat) >= top
    &&& forall|k: int|
        0 <= k < heights.len() - 1 ==> #[trigger] heights[k] > 0 && heights[k] == top
            - locator_offset(k as nat)
}

/// The heights of a locator for a chain whose last block is at `top`.
pub fn locator_heights(top: u32) -> (heights: Vec<u32>)
    ensures
        is_locator(top, heights@),
{
    let mut heights: Vec<u32> = Vec::new();
    let mut step: u32 = 1;
    let mut index: u32 = top;
    while index > 0
        invariant_except_break
            index == 0 ==> top == 0,
            heights@.len() == 0 ==> index == top,
            index > 0 ==> index == top - locator_offset(heights@.len()),
            index == 0 ==> heights@.len() == 0,
        invariant
            heights@.len() <= 10 ==> step == 1,
            heights@.len() >= 10 ==> step == pow2((heights@.len() - 10) as nat),
            forall|k: int|
                0 <= k < heights@.len() ==> #[trigger] heights@[k] > 0 && heights@[k] == top
                    - locator_offset(k as nat),
        ensures
            locator_offset(heights@.len()) >= top,
        decreases index,
    {
        let ghost count = heights@.len();
        proof {
            lemma_next_offset(count);
            lemma2_to64();
            if count >= 10 {
                lemma_pow2_pos((count - 10) as nat);
            }
        }
        if heights.len() >= 10 {
            step = step * 2;
        }
        heights.push(index);
        if index > step {
            index = index - step;
        } else {
            break;
        }
    }
    heights.push(0);
    heights
}

/// The next offset is one further, or one step further.
proof fn lemma_next_offset(count: nat)
    ensures
        count < 10 ==> locator_offset(count + 1) == locator_offset(count) + 1,
        count >= 10 ==> {
            &&& locator_offset(count + 1) == locator_offset(count) + 2 * pow2((count - 10) as nat)
            &&& locator_offset(count) == 8 + 2 * pow2((count - 10) as nat)
            &&& pow2((count - 9) as nat) == 2 * pow2((count - 10) as nat)
        },
{
    if count >= 10 {
        lemma_pow2_unfold((count - 9) as nat);
        lemma_pow2_unfold((count - 8) as nat);
        if count == 10 {
            lemma2_to64();
        }
    }
}

/// Offsets grow.
proof fn lemma_offsets_grow(j: nat, k: nat)
    requires
        j < k,
    ensures
        locator_offset(j) < locator_offset(k),
    decreases k,
{
    lemma_next_offset((k - 1) as nat);
    if k - 1 >= 10 {
        lemma_pow2_pos((k - 11) as nat);
    }
    if j < k - 1 {
        lemma_offsets_grow(j, (k - 1) as nat);
    }
}

/// A locator starts at the tip, goes strictly down and ends at the first block.
pub proof fn law_locator_descends(top: u32, heights: Seq<u32>)
    requires
        is_locator(top, heights),
    ensures
        heights[0] == top,
        heights.last() == 0,
        forall|j: int, k: int| 0 <= j < k < heights.len() ==> heights[j] > heights[k],
{
    if top == 0 && heights.len() > 1 {
        assert(heights[0] > 0);
    }
    assert forall|j: int, k: int| 0 <= j < k < heights.len() implies heights[j] > heights[k] by {
        lemma_offsets_grow(j as nat, k as nat);
        if k == heights.len() - 1 {
            assert(heights[k] == heights.last());
        }
    }
}

/// The first ten steps go down by one block, each later one by twice as many as the step before,
/// but for the last one, which goes to the first block.
pub proof fn law_locator_steps(top: u32, heights: Seq<u32>, k: int)
    requires
        is_locator(top, heights),
        0 <= k < heights.len() - 2,
    ensures
        k < 10 ==> heights[k] - heights[k + 1] == 1,
        k >= 10 ==> heights[k] - heights[k + 1] == pow2((k - 9) as nat),
{
    lemma_next_offset(k as nat);
    assert(heights[k] > 0 && heights[k + 1] > 0);
}

/// A locator is short, however long the chain is.
pub proof fn law_locator_is_short(top: u32, heights: Seq<u32>)
    requires
        is_locator(top, heights),
    ensures
        heights.len() <= 42,
{
    lemma2_to64();
    if heights.len() > 42 {
        assert(heights[41] > 0);
    }
}

/// There is only one locator for a height.
pub proof fn law_locator_unique(top: u32, a: Seq<u32>, b: Seq<u32>)
    requires
        is_locator(top, a),
        is_locator(top, b),
    ensures
        a == b,
{
    if a.len() < b.len() {
        assert(b[a.len() - 1] > 0);
        assert(false);
    }
    if b.len() < a.len() {
        assert(a[b.len() - 1] > 0);
        assert(false);
    }
    assert forall|k: int| 0 <= k < a.len() implies a[k] == b[k] by {
        if k == a.len() - 1 {
            assert(a[k] == a.last() && b[k] == b.last());
        } else {
            assert(a[k] > 0 && b[k] > 0);
        }
    }
    assert(a =~= b);
}

/// A locator jumps to the first block only where its next regular step would reach it.
pub proof fn law_locator_ends_in_reach(top: u32, heights: Seq<u32>)
    requires
        is_locator(top, heights),
        heights.len() >= 2,
    ensures
        heights.len() <= 11 ==> heights[heights.len() - 2] == 1,
        heights.len() >= 12 ==> 1 <= heights[heights.len() - 2] <= pow2(
            (heights.len() - 11) as nat,
        ),
{
    let k = (heights.len() - 2) as nat;
    assert(heights[k as int] > 0);
    lemma_next_offset(k);
}

} // verus!
