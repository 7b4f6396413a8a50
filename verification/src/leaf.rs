//! The leaves that a block adds to the accumulator.

use vstd::prelude::*;

use crate::encoding::{compact_size, le_bytes, le_value, write_u32};
use crate::encoding::{lemma_compact_size_round_trip, lemma_le_round_trip, lemma_pow256_values};
use crate::hash::{lemma_same_bytes_same_hash, BlockHash, Hash256};
use crate::primitives::{block_hash_of, stripped_txid, txid_of};
use crate::primitives::{Block, BlockView, OutPoint, Transaction, TransactionView, TxOutView};

verus! {

/// What `sha2::Sha512_256` digests `data` to.
pub uninterp spec fn sha512_256(data: Seq<u8>) -> Hash256;

/// `sha2::Sha512_256::digest`: the SHA-512/256 hash of `data`, which depends on `data` alone.
#[verifier::external_body]
fn digest(data: &Vec<u8>) -> (hash: Hash256)
    ensures
        hash == sha512_256(data@),
{
    let hash: [u8; 32] = <sha2::Sha512_256 as sha2::Digest>::digest(data).into();
    Hash256(hash)
}

/// Where an output was created, and whether a coinbase created it: twice the height, cut off at
/// 32 bits, plus one for a coinbase.
pub open spec fn header_code(height: u32, coin_base: bool) -> nat {
    (2 * height as nat) % 0x1_0000_0000 + if coin_base {
        1nat
    } else {
        0nat
    }
}

/// What is hashed to a leaf: the block, the transaction, the position of the output in it, where
/// the output was created, and the output.
pub open spec fn leaf_data(
    transaction: TransactionView,
    vout: u32,
    height: u32,
    block_hash: BlockHash,
) -> Seq<u8> {
    block_hash@ + txid_of(transaction)@ + le_bytes(vout as nat, 4) + le_bytes(
        header_code(height, transaction.coin_base()),
        4,
    ) + transaction.output[vout as int].encoded()
}

/// The leaf that stands for an output.
pub open spec fn leaf_hash(
    transaction: TransactionView,
    vout: u32,
    height: u32,
    block_hash: BlockHash,
) -> Hash256 {
    sha512_256(leaf_data(transaction, vout, height, block_hash))
}

/// The code for where an output was created.
fn compute_header_code(height: u32, coin_base: bool) -> (code: u32)
    ensures
        code as nat == header_code(height, coin_base),
{
    let code: u32 = height << 1u32;
    assert(code == (2 * height) % 0x1_0000_0000 && code % 2 == 0) by (bit_vector)
        requires
            code == height << 1u32,
    ;
    if coin_base {
        assert(code | 1 == code + 1) by (bit_vector)
            requires
                code % 2 == 0,
        ;
        code | 1
    } else {
        code
    }
}

/// The leaf that stands for output `vout` of `transaction`, in the block `block_hash` at `height`.
pub fn get_leaf_hash(
    transaction: &Transaction,
    vout: u32,
    height: u32,
    block_hash: BlockHash,
) -> (leaf: Hash256)
    requires
        vout < transaction@.output.len(),
    ensures
        leaf == leaf_hash(transaction@, vout, height, block_hash),
{
    let output = &transaction.output[vout as usize];
    let code: u32 = compute_header_code(height, transaction.is_coin_base());
    let mut data: Vec<u8> = Vec::new();
    block_hash.write(&mut data);
    transaction.txid().write(&mut data);
    write_u32(vout, &mut data);
    write_u32(code, &mut data);
    let mut encoded = output.serialize();
    data.append(&mut encoded);
    assert(data@ =~= leaf_data(transaction@, vout, height, block_hash));
    digest(&data)
}

impl BlockView {
    /// An input of the block spends `out_point`.
    pub open spec fn spends(self, out_point: OutPoint) -> bool {
        exists|t: int, i: int|
            0 <= t < self.txdata.len() && 0 <= i < self.txdata[t].input.len()
                && #[trigger] self.txdata[t].input[i].previous_output == out_point
    }

    /// Output `o` of transaction `t` outlives the block: some input could spend it, and none in
    /// this block does.
    pub open spec fn creates(self, t: int, o: int) -> bool {
        !self.txdata[t].output[o].unspendable() && !self.spends(
            OutPoint { txid: txid_of(self.txdata[t]), vout: o as u32 },
        )
    }

    /// The leaves for those of the first `count` outputs of transaction `t` that outlive the
    /// block.
    pub open spec fn transaction_leaves(self, height: u32, t: int, count: nat) -> Seq<Hash256>
        decreases count,
    {
        if count == 0 {
            seq![]
        } else {
            let front = self.transaction_leaves(height, t, (count - 1) as nat);
            if self.creates(t, count - 1) {
                front.push(
                    leaf_hash(
                        self.txdata[t],
                        (count - 1) as u32,
                        height,
                        block_hash_of(self.header),
                    ),
                )
            } else {
                front
            }
        }
    }

    /// The leaves for the outputs of the first `count` transactions that outlive the block.
    pub open spec fn leaves_of_first(self, height: u32, count: nat) -> Seq<Hash256>
        decreases count,
    {
        if count == 0 {
            seq![]
        } else {
            self.leaves_of_first(height, (count - 1) as nat) + self.transaction_leaves(
                height,
                count - 1,
                self.txdata[count - 1].output.len(),
            )
        }
    }

    /// The leaves that the block adds to the accumulator at `height`: one for each output that
    /// outlives it, in the order in which they stand in the block.
    pub open spec fn leaves(self, height: u32) -> Seq<Hash256> {
        self.leaves_of_first(height, self.txdata.len())
    }
}

/// Every output that the block spends.
fn block_inputs(block: &Block) -> (spent: Vec<OutPoint>)
    ensures
        forall|out_point: OutPoint| #[trigger]
            spent@.contains(out_point) <==> block@.spends(out_point),
{
    let mut spent: Vec<OutPoint> = Vec::new();
    let mut t: usize = 0;
    while t < block.txdata.len()
        invariant
            t <= block.txdata@.len(),
            spent_before(block@, t as int, 0, spent@),
        decreases block.txdata@.len() - t,
    {
        let transaction = &block.txdata[t];
        assert(transaction@ == block@.txdata[t as int]);
        let mut i: usize = 0;
        while i < transaction.input.len()
            invariant
                t < block.txdata@.len(),
                transaction == block.txdata@[t as int],
                i <= transaction.input@.len(),
                spent_before(block@, t as int, i as int, spent@),
            decreases transaction.input@.len() - i,
        {
            let out_point = transaction.input[i].previous_output;
            let ghost before = spent@;
            spent.push(out_point);
            proof {
                assert(block@.txdata[t as int].input[i as int].previous_output == out_point);
                lemma_spent_push(block@, t as int, i as int, before);
            }
            i += 1;
        }
        proof {
            lemma_spent_next(block@, t as int, spent@);
        }
        t += 1;
    }
    proof {
        lemma_spent_all(block@, spent@);
    }
    spent
}

/// Input `i` of transaction `t` stands before input `end_input` of transaction `end`.
spec fn stands_before(t: int, i: int, end: int, end_input: int) -> bool {
    t < end || (t == end && i < end_input)
}

/// `spent` holds what the inputs before input `end_input` of transaction `end` spend, and nothing
/// else.
spec fn spent_before(block: BlockView, end: int, end_input: int, spent: Seq<OutPoint>) -> bool {
    &&& forall|t: int, i: int|
        0 <= t < block.txdata.len() && 0 <= i < block.txdata[t].input.len() && stands_before(
            t,
            i,
            end,
            end_input,
        ) ==> spent.contains(#[trigger] block.txdata[t].input[i].previous_output)
    &&& forall|k: int| 0 <= k < spent.len() ==> block.spends(#[trigger] spent[k])
}

proof fn lemma_spent_push(block: BlockView, t: int, i: int, spent: Seq<OutPoint>)
    requires
        0 <= t < block.txdata.len(),
        0 <= i < block.txdata[t].input.len(),
        spent_before(block, t, i, spent),
    ensures
        spent_before(block, t, i + 1, spent.push(block.txdata[t].input[i].previous_output)),
{
    let out_point = block.txdata[t].input[i].previous_output;
    let after = spent.push(out_point);
    assert forall|u: int, j: int|
        0 <= u < block.txdata.len() && 0 <= j < block.txdata[u].input.len() && stands_before(
            u,
            j,
            t,
            i + 1,
        ) implies after.contains(#[trigger] block.txdata[u].input[j].previous_output) by {
        if stands_before(u, j, t, i) {
            let k = choose|k: int|
                0 <= k < spent.len() && spent[k] == block.txdata[u].input[j].previous_output;
            assert(after[k] == spent[k]);
        } else {
            assert(after[spent.len() as int] == out_point);
        }
    }
    assert forall|k: int| 0 <= k < after.len() implies block.spends(#[trigger] after[k]) by {
        if k < spent.len() {
            assert(after[k] == spent[k]);
        }
    }
}

proof fn lemma_spent_next(block: BlockView, t: int, spent: Seq<OutPoint>)
    requires
        0 <= t < block.txdata.len(),
        spent_before(block, t, block.txdata[t].input.len() as int, spent),
    ensures
        spent_before(block, t + 1, 0, spent),
{
}

proof fn lemma_spent_all(block: BlockView, spent: Seq<OutPoint>)
    requires
        spent_before(block, block.txdata.len() as int, 0, spent),
    ensures
        forall|out_point: OutPoint| #[trigger]
            spent.contains(out_point) <==> block.spends(out_point),
{
}

/// Whether `out_point` is one of `spent`.
fn is_among(out_point: &OutPoint, spent: &Vec<OutPoint>) -> (answer: bool)
    ensures
        answer == spent@.contains(*out_point),
{
    let mut i: usize = 0;
    while i < spent.len()
        invariant
            i <= spent@.len(),
            forall|j: int| 0 <= j < i ==> spent@[j] != *out_point,
        decreases spent@.len() - i,
    {
        if spent[i] == *out_point {
            return true;
        }
        i += 1;
    }
    false
}

/// The leaves that `block` adds to the accumulator at `height`.
pub fn block_leaves(block: &Block, height: u32) -> (leaves: Vec<Hash256>)
    ensures
        leaves@ == block@.leaves(height),
{
    let block_hash = block.block_hash();
    let spent = block_inputs(block);
    let mut leaves: Vec<Hash256> = Vec::new();
    let mut t: usize = 0;
    while t < block.txdata.len()
        invariant
            t <= block.txdata@.len(),
            block_hash == block_hash_of(block.header),
            forall|out_point: OutPoint| #[trigger]
                spent@.contains(out_point) <==> block@.spends(out_point),
            leaves@ == block@.leaves_of_first(height, t as nat),
        decreases block.txdata@.len() - t,
    {
        let transaction = &block.txdata[t];
        assert(transaction@ == block@.txdata[t as int]);
        let txid = transaction.txid();
        let ghost front = leaves@;
        let mut o: usize = 0;
        assert(front + block@.transaction_leaves(height, t as int, 0) =~= front);
        while o < transaction.output.len()
            invariant
                t < block.txdata@.len(),
                transaction == block.txdata@[t as int],
                transaction@ == block@.txdata[t as int],
                txid == txid_of(transaction@),
                o <= transaction.output@.len(),
                block_hash == block_hash_of(block.header),
                forall|out_point: OutPoint| #[trigger]
                    spent@.contains(out_point) <==> block@.spends(out_point),
                leaves@ == front + block@.transaction_leaves(height, t as int, o as nat),
            decreases transaction.output@.len() - o,
        {
            let vout: u32 = #[verifier::truncate]
            (o as u32);
            assert(vout <= o) by (bit_vector)
                requires
                    vout == o as u32,
            ;
            let output = &transaction.output[o];
            assert(output@ == transaction@.output[o as int]);
            if !output.is_provably_unspendable() && !is_among(&OutPoint { txid, vout }, &spent) {
                leaves.push(get_leaf_hash(transaction, vout, height, block_hash));
            }
            o += 1;
            assert(leaves@ =~= front + block@.transaction_leaves(height, t as int, o as nat));
        }
        t += 1;
    }
    leaves
}

/// Two outputs with the same bytes are the same.
pub proof fn law_output_bytes_unique(a: TxOutView, b: TxOutView)
    requires
        a.script_pubkey.len() <= u64::MAX,
        b.script_pubkey.len() <= u64::MAX,
        a.encoded() == b.encoded(),
    ensures
        a.value == b.value,
        a.script_pubkey == b.script_pubkey,
{
    lemma_pow256_values();
    lemma_le_round_trip(a.value as nat, 8);
    lemma_le_round_trip(b.value as nat, 8);
    assert(a.encoded().take(8) =~= le_bytes(a.value as nat, 8));
    assert(b.encoded().take(8) =~= le_bytes(b.value as nat, 8));
    let (m, n) = (a.script_pubkey.len(), b.script_pubkey.len());
    assert(a.encoded().skip(8) =~= compact_size(m) + a.script_pubkey);
    assert(b.encoded().skip(8) =~= compact_size(n) + b.script_pubkey);
    lemma_compact_size_round_trip(m, a.script_pubkey);
    lemma_compact_size_round_trip(n, b.script_pubkey);
    let width = compact_size(m).len() as int;
    assert(a.encoded().skip(8).skip(width) =~= a.script_pubkey);
    assert(b.encoded().skip(8).skip(width) =~= b.script_pubkey);
}

/// Below half of the largest height, the code says the height and whether a coinbase created the
/// output.
pub proof fn law_header_code_unique(a: u32, a_coin_base: bool, b: u32, b_coin_base: bool)
    requires
        a < 0x8000_0000,
        b < 0x8000_0000,
        header_code(a, a_coin_base) == header_code(b, b_coin_base),
    ensures
        a == b,
        a_coin_base == b_coin_base,
{
}

/// What is hashed to a leaf says the block, the transaction, the position of the output, and,
/// below half of the largest height, where the output was created, and then the output.
pub proof fn law_leaf_data_commits(
    a: TransactionView,
    a_vout: u32,
    a_height: u32,
    a_block: BlockHash,
    b: TransactionView,
    b_vout: u32,
    b_height: u32,
    b_block: BlockHash,
)
    requires
        a_height < 0x8000_0000,
        b_height < 0x8000_0000,
        leaf_data(a, a_vout, a_height, a_block) == leaf_data(b, b_vout, b_height, b_block),
    ensures
        a_block == b_block,
        txid_of(a) == txid_of(b),
        a_vout == b_vout,
        a_height == b_height,
        a.coin_base() == b.coin_base(),
        a.output[a_vout as int].encoded() == b.output[b_vout as int].encoded(),
{
    lemma_leaf_data_parts(a, a_vout, a_height, a_block);
    lemma_leaf_data_parts(b, b_vout, b_height, b_block);
    lemma_same_bytes_same_hash(a_block, b_block);
    lemma_same_bytes_same_hash(txid_of(a), txid_of(b));
    law_header_code_unique(a_height, a.coin_base(), b_height, b.coin_base());
}

/// Where the parts of what is hashed to a leaf stand.
proof fn lemma_leaf_data_parts(
    transaction: TransactionView,
    vout: u32,
    height: u32,
    block_hash: BlockHash,
)
    ensures
        ({
            let data = leaf_data(transaction, vout, height, block_hash);
            &&& data.subrange(0, 32) == block_hash@
            &&& data.subrange(32, 64) == txid_of(transaction)@
            &&& le_value(data.subrange(64, 68)) == vout
            &&& le_value(data.subrange(68, 72)) == header_code(height, transaction.coin_base())
            &&& data.skip(72) == transaction.output[vout as int].encoded()
        }),
{
    let data = leaf_data(transaction, vout, height, block_hash);
    let code = header_code(height, transaction.coin_base());
    lemma_pow256_values();
    lemma_le_round_trip(vout as nat, 4);
    lemma_le_round_trip(code, 4);
    assert(data.subrange(0, 32) =~= block_hash@);
    assert(data.subrange(32, 64) =~= txid_of(transaction)@);
    assert(data.subrange(64, 68) =~= le_bytes(vout as nat, 4));
    assert(data.subrange(68, 72) =~= le_bytes(code, 4));
    assert(data.skip(72) =~= transaction.output[vout as int].encoded());
}

impl BlockView {
    /// `leaf` stands for an output of transaction `t` that outlives the block.
    pub open spec fn has_leaf(self, height: u32, t: int, o: int, leaf: Hash256) -> bool {
        &&& 0 <= t < self.txdata.len()
        &&& 0 <= o < self.txdata[t].output.len()
        &&& self.creates(t, o)
        &&& leaf == leaf_hash(self.txdata[t], o as u32, height, block_hash_of(self.header))
    }
}

proof fn lemma_transaction_leaves(block: BlockView, height: u32, t: int, count: nat, leaf: Hash256)
    requires
        0 <= t < block.txdata.len(),
        count <= block.txdata[t].output.len(),
    ensures
        block.transaction_leaves(height, t, count).contains(leaf) <==> exists|o: int|
            o < count && #[trigger] block.has_leaf(height, t, o, leaf),
    decreases count,
{
    if count > 0 {
        let o = count - 1;
        let front = block.transaction_leaves(height, t, o as nat);
        let all = block.transaction_leaves(height, t, count);
        lemma_transaction_leaves(block, height, t, o as nat, leaf);
        if front.contains(leaf) {
            let k = choose|k: int| 0 <= k < front.len() && front[k] == leaf;
            assert(all[k] == leaf);
        }
        if block.has_leaf(height, t, o, leaf) {
            assert(all[all.len() - 1] == leaf);
        }
        if all.contains(leaf) && !block.has_leaf(height, t, o, leaf) {
            let k = choose|k: int| 0 <= k < all.len() && all[k] == leaf;
            assert(front[k] == leaf);
        }
        if exists|p: int| p < count && #[trigger] block.has_leaf(height, t, p, leaf) {
            let p = choose|p: int| p < count && #[trigger] block.has_leaf(height, t, p, leaf);
            assert(p == o || p < o);
        }
    }
}

proof fn lemma_leaves_of_first(block: BlockView, height: u32, count: nat, leaf: Hash256)
    requires
        count <= block.txdata.len(),
    ensures
        block.leaves_of_first(height, count).contains(leaf) <==> exists|t: int, o: int|
            t < count && #[trigger] block.has_leaf(height, t, o, leaf),
    decreases count,
{
    if count > 0 {
        let t = count - 1;
        let total = block.txdata[t].output.len();
        let front = block.leaves_of_first(height, t as nat);
        let last = block.transaction_leaves(height, t, total);
        let all = block.leaves_of_first(height, count);
        lemma_leaves_of_first(block, height, t as nat, leaf);
        lemma_transaction_leaves(block, height, t, total, leaf);
        if front.contains(leaf) {
            let k = choose|k: int| 0 <= k < front.len() && front[k] == leaf;
            assert(all[k] == leaf);
        }
        if last.contains(leaf) {
            let k = choose|k: int| 0 <= k < last.len() && last[k] == leaf;
            assert(all[front.len() + k] == leaf);
        }
        if all.contains(leaf) {
            let k = choose|k: int| 0 <= k < all.len() && all[k] == leaf;
            if k < front.len() {
                assert(front[k] == leaf);
            } else {
                assert(last[k - front.len()] == leaf);
            }
        }
        if exists|u: int, o: int| u < count && #[trigger] block.has_leaf(height, u, o, leaf) {
            let (u, o) = choose|u: int, o: int|
                u < count && #[trigger] block.has_leaf(height, u, o, leaf);
            assert(u < t || (u == t && o < total));
        }
    }
}

/// A block adds exactly the leaves of the outputs that outlive it.
pub proof fn law_leaves_are_created_outputs(block: BlockView, height: u32, leaf: Hash256)
    ensures
        block.leaves(height).contains(leaf) <==> exists|t: int, o: int| #[trigger]
            block.has_leaf(height, t, o, leaf),
{
    lemma_leaves_of_first(block, height, block.txdata.len(), leaf);
    if exists|t: int, o: int| #[trigger] block.has_leaf(height, t, o, leaf) {
        let (t, o) = choose|t: int, o: int| #[trigger] block.has_leaf(height, t, o, leaf);
        assert(t < block.txdata.len() && block.has_leaf(height, t, o, leaf));
    }
}

/// Witnesses do not enter a leaf, and neither does the highest bit of the height: transactions that
/// differ in their witnesses alone have the same leaves.
pub proof fn law_leaf_without_witnesses(
    a: TransactionView,
    b: TransactionView,
    vout: u32,
    height: u32,
    block_hash: BlockHash,
)
    requires
        a.stripped() == b.stripped(),
        vout < a.output.len(),
        height < 0x8000_0000,
    ensures
        leaf_hash(a, vout, height, block_hash) == leaf_hash(b, vout, height, block_hash),
        leaf_hash(a, vout, height, block_hash) == leaf_hash(
            a,
            vout,
            (height + 0x8000_0000) as u32,
            block_hash,
        ),
{
    assert(a.input.len() == a.stripped().input.len());
    assert(b.input.len() == b.stripped().input.len());
    if a.input.len() == 1 {
        assert(a.stripped().input[0].previous_output == a.input[0].previous_output);
        assert(b.stripped().input[0].previous_output == b.input[0].previous_output);
    }
    assert(a.coin_base() == b.coin_base());
    assert(a.output == a.stripped().output);
}

/// Where those of the first `count` outputs of transaction `t` stand that get a leaf.
spec fn transaction_places(block: BlockView, t: int, count: nat) -> Seq<(int, int)>
    decreases count,
{
    if count == 0 {
        seq![]
    } else {
        let front = transaction_places(block, t, (count - 1) as nat);
        if block.creates(t, count - 1) {
            front.push((t, count - 1))
        } else {
            front
        }
    }
}

/// Where those outputs of the first `count` transactions stand that get a leaf.
spec fn places_of_first(block: BlockView, count: nat) -> Seq<(int, int)>
    decreases count,
{
    if count == 0 {
        seq![]
    } else {
        places_of_first(block, (count - 1) as nat) + transaction_places(
            block,
            count - 1,
            block.txdata[count - 1].output.len(),
        )
    }
}

/// The leaf for the output at `place`.
spec fn leaf_at(block: BlockView, height: u32, place: (int, int)) -> Hash256 {
    leaf_hash(block.txdata[place.0], place.1 as u32, height, block_hash_of(block.header))
}

proof fn lemma_transaction_places(block: BlockView, height: u32, t: int, count: nat)
    ensures
        ({
            let places = transaction_places(block, t, count);
            &&& block.transaction_leaves(height, t, count) == places.map_values(
                |place: (int, int)| leaf_at(block, height, place),
            )
            &&& forall|k: int|
                0 <= k < places.len() ==> (#[trigger] places[k]).0 == t && 0 <= places[k].1 < count
                    && block.creates(t, places[k].1)
            &&& forall|j: int, k: int|
                0 <= j < k < places.len() ==> (#[trigger] places[j]).1 < (#[trigger] places[k]).1
            &&& forall|o: int|
                0 <= o < count && #[trigger] block.creates(t, o) ==> places.contains((t, o))
        }),
    decreases count,
{
    let places = transaction_places(block, t, count);
    let leaf = |place: (int, int)| leaf_at(block, height, place);
    if count > 0 {
        let front = transaction_places(block, t, (count - 1) as nat);
        lemma_transaction_places(block, height, t, (count - 1) as nat);
        if block.creates(t, count - 1) {
            assert(places.map_values(leaf) =~= front.map_values(leaf).push(
                leaf_at(block, height, (t, count - 1)),
            ));
        }
        assert forall|o: int| 0 <= o < count && #[trigger] block.creates(t, o) implies
            places.contains((t, o)) by {
            if o < count - 1 {
                let k = choose|k: int| 0 <= k < front.len() && front[k] == (t, o);
                assert(places[k] == (t, o));
            } else {
                assert(places[places.len() - 1] == (t, o));
            }
        }
    } else {
        assert(places.map_values(leaf) =~= seq![]);
    }
}

proof fn lemma_places_of_first(block: BlockView, height: u32, count: nat)
    requires
        count <= block.txdata.len(),
    ensures
        ({
            let places = places_of_first(block, count);
            &&& block.leaves_of_first(height, count) == places.map_values(
                |place: (int, int)| leaf_at(block, height, place),
            )
            &&& forall|k: int|
                0 <= k < places.len() ==> 0 <= (#[trigger] places[k]).0 < count && 0 <= places[k].1
                    < block.txdata[places[k].0].output.len() && block.creates(
                    places[k].0,
                    places[k].1,
                )
            &&& forall|j: int, k: int|
                0 <= j < k < places.len() ==> (#[trigger] places[j]).0 < (#[trigger] places[k]).0
                    || (places[j].0 == places[k].0 && places[j].1 < places[k].1)
            &&& forall|t: int, o: int|
                0 <= t < count && 0 <= o < block.txdata[t].output.len() && #[trigger] block.creates(
                    t,
                    o,
                ) ==> places.contains((t, o))
        }),
    decreases count,
{
    let places = places_of_first(block, count);
    let leaf = |place: (int, int)| leaf_at(block, height, place);
    if count > 0 {
        let last = count - 1;
        let total = block.txdata[last].output.len();
        let front = places_of_first(block, last as nat);
        let tail = transaction_places(block, last, total);
        lemma_places_of_first(block, height, last as nat);
        lemma_transaction_places(block, height, last, total);
        assert(places.map_values(leaf) =~= front.map_values(leaf) + tail.map_values(leaf));
        assert forall|j: int, k: int| 0 <= j < k < places.len() implies (#[trigger] places[j]).0 < (
        #[trigger] places[k]).0 || (places[j].0 == places[k].0 && places[j].1 < places[k].1) by {
            if k < front.len() {
                assert(places[j] == front[j] && places[k] == front[k]);
            } else if j >= front.len() {
                assert(places[j] == tail[j - front.len()] && places[k] == tail[k - front.len()]);
            } else {
                assert(places[j] == front[j] && places[k] == tail[k - front.len()]);
            }
        }
        assert forall|t: int, o: int|
            0 <= t < count && 0 <= o < block.txdata[t].output.len() && #[trigger] block.creates(
                t,
                o,
            ) implies places.contains((t, o)) by {
            if t < last {
                let k = choose|k: int| 0 <= k < front.len() && front[k] == (t, o);
                assert(places[k] == (t, o));
            } else {
                let k = choose|k: int| 0 <= k < tail.len() && tail[k] == (t, o);
                assert(places[front.len() + k] == (t, o));
            }
        }
    } else {
        assert(places.map_values(leaf) =~= seq![]);
    }
}

/// Four bytes, least significant first.
proof fn lemma_four_bytes(value: nat)
    ensures
        le_bytes(value, 4) == seq![
            (value % 256) as u8,
            (value / 256 % 256) as u8,
            (value / 65_536 % 256) as u8,
            (value / 16_777_216 % 256) as u8,
        ],
{
    reveal_with_fuel(le_bytes, 5);
    assert(value / 256 / 256 == value / 65_536);
    assert(value / 256 / 256 / 256 == value / 16_777_216);
    assert(le_bytes(value, 4) =~= seq![
        (value % 256) as u8,
        (value / 256 % 256) as u8,
        (value / 65_536 % 256) as u8,
        (value / 16_777_216 % 256) as u8,
    ]);
}

/// The transaction is one whose one input refers to the hash of zeros at the highest position.
pub open spec fn mints(transaction: TransactionView) -> bool {
    &&& transaction.input.len() == 1
    &&& transaction.input[0].previous_output.vout == 0xffff_ffff
    &&& forall|k: int|
        0 <= k < 32 ==> #[trigger] transaction.input[0].previous_output.txid.0@[k] == 0
}

/// The leaf for an output is the hash of five things, one after the other: the hash of the block,
/// the id of the transaction, the position of the output in four bytes, twice the height in four
/// bytes, odd for a transaction that mints, and the bytes of the output.
pub proof fn law_leaf_hashes_five_things(
    transaction: TransactionView,
    vout: u32,
    height: u32,
    block_hash: BlockHash,
)
    ensures
        ({
            let v = vout as nat;
            let c = (2 * height as nat) % 0x1_0000_0000 + if mints(transaction) {
                1nat
            } else {
                0nat
            };
            leaf_hash(transaction, vout, height, block_hash) == sha512_256(
                block_hash.0@ + stripped_txid(transaction.stripped()).0@ + seq![
                    (v % 256) as u8,
                    (v / 256 % 256) as u8,
                    (v / 65_536 % 256) as u8,
                    (v / 16_777_216 % 256) as u8,
                ] + seq![
                    (c % 256) as u8,
                    (c / 256 % 256) as u8,
                    (c / 65_536 % 256) as u8,
                    (c / 16_777_216 % 256) as u8,
                ] + transaction.output[vout as int].encoded(),
            )
        }),
{
    lemma_four_bytes(vout as nat);
    lemma_four_bytes(header_code(height, transaction.coin_base()));
    if transaction.input.len() == 1 {
        let txid = transaction.input[0].previous_output.txid;
        assert(txid.zero() == forall|k: int| 0 <= k < 32 ==> #[trigger] txid.0@[k] == 0);
    }
    assert(mints(transaction) == transaction.coin_base());
}

/// A block adds one leaf for each output that some input could spend and that no input of the block
/// refers to by the id of its transaction and its position, whatever that transaction is. There are
/// no other leaves, and they come in the order in which their outputs stand in the block.
pub proof fn law_leaves_in_order(block: BlockView, height: u32)
    ensures
        exists|places: Seq<(int, int)>|
            {
                &&& #[trigger] places.len() == block.leaves(height).len()
                &&& forall|k: int|
                    0 <= k < places.len() ==> {
                        &&& 0 <= (#[trigger] places[k]).0 < block.txdata.len()
                        &&& 0 <= places[k].1 < block.txdata[places[k].0].output.len()
                        &&& block.leaves(height)[k] == leaf_hash(
                            block.txdata[places[k].0],
                            places[k].1 as u32,
                            height,
                            block_hash_of(block.header),
                        )
                    }
                &&& forall|j: int, k: int|
                    0 <= j < k < places.len() ==> (#[trigger] places[j]).0 < (
                    #[trigger] places[k]).0 || (places[j].0 == places[k].0 && places[j].1
                        < places[k].1)
                &&& forall|t: int, o: int|
                    #![trigger places.contains((t, o))]
                    0 <= t < block.txdata.len() && 0 <= o < block.txdata[t].output.len() ==> (
                    places.contains((t, o)) <==> {
                        &&& !block.txdata[t].output[o].unspendable()
                        &&& !exists|u: int, j: int|
                            {
                                &&& 0 <= u < block.txdata.len()
                                &&& 0 <= j < block.txdata[u].input.len()
                                &&& (#[trigger] block.txdata[u].input[j]).previous_output.txid
                                    == stripped_txid(block.txdata[t].stripped())
                                &&& block.txdata[u].input[j].previous_output.vout == o as u32
                            }
                    })
            },
{
    let total = block.txdata.len();
    let places = places_of_first(block, total);
    lemma_places_of_first(block, height, total);
    assert forall|t: int, o: int|
        #![trigger places.contains((t, o))]
        0 <= t < block.txdata.len() && 0 <= o < block.txdata[t].output.len() implies (
    places.contains((t, o)) <==> {
        &&& !block.txdata[t].output[o].unspendable()
        &&& !exists|u: int, j: int|
            {
                &&& 0 <= u < block.txdata.len()
                &&& 0 <= j < block.txdata[u].input.len()
                &&& (#[trigger] block.txdata[u].input[j]).previous_output.txid == stripped_txid(
                    block.txdata[t].stripped(),
                )
                &&& block.txdata[u].input[j].previous_output.vout == o as u32
            }
    }) by {
        let out_point = OutPoint { txid: txid_of(block.txdata[t]), vout: o as u32 };
        if block.spends(out_point) {
            let (u, j) = choose|u: int, j: int|
                0 <= u < block.txdata.len() && 0 <= j < block.txdata[u].input.len()
                    && #[trigger] block.txdata[u].input[j].previous_output == out_point;
            assert(block.txdata[u].input[j].previous_output.vout == o as u32);
        }
        if exists|u: int, j: int|
            {
                &&& 0 <= u < block.txdata.len()
                &&& 0 <= j < block.txdata[u].input.len()
                &&& (#[trigger] block.txdata[u].input[j]).previous_output.txid == stripped_txid(
                    block.txdata[t].stripped(),
                )
                &&& block.txdata[u].input[j].previous_output.vout == o as u32
            } {
            let (u, j) = choose|u: int, j: int|
                {
                    &&& 0 <= u < block.txdata.len()
                    &&& 0 <= j < block.txdata[u].input.len()
                    &&& (#[trigger] block.txdata[u].input[j]).previous_output.txid == stripped_txid(
                        block.txdata[t].stripped(),
                    )
                    &&& block.txdata[u].input[j].previous_output.vout == o as u32
                };
            assert(block.txdata[u].input[j].previous_output == out_point);
        }
        if places.contains((t, o)) {
            let k = choose|k: int| 0 <= k < places.len() && places[k] == (t, o);
            assert(block.creates(places[k].0, places[k].1));
        }
        if block.creates(t, o) {
            assert(places.contains((t, o)));
        }
    }
}

} // verus!
