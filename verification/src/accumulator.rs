//! The Utreexo accumulator: its compact state and the proofs against it.

use vstd::prelude::*;
use vstd::arithmetic::power2::{lemma2_to64, lemma2_to64_rest, lemma_pow2_pos, lemma_pow2_unfold};
use vstd::arithmetic::power2::pow2;

use rustreexo::node_hash::BitcoinNodeHash;
use rustreexo::proof::Proof as RustreexoProof;
use rustreexo::stump::Stump as RustreexoStump;

use crate::encoding::{le_bytes, le_value, read_u64, write_u64};
use crate::encoding::{law_bytes_by_weight, lemma_le_round_trip, lemma_pow256_values, pow256};
use crate::hash::{hash_bytes, hashes_from, law_hashes_by_byte, law_hashes_read_back};
use crate::hash::{lemma_hash_bytes, lemma_hashes_from};
use crate::hash::{read_hashes, write_hashes, Hash256};

verus! {

/// The state of the accumulator: how many leaves were ever added, and the roots of its trees, the
/// largest tree first. The hash of zeros is an empty root.
#[derive(Debug)]
pub struct Stump {
    pub leafs: u64,
    pub roots: Vec<Hash256>,
}

#[verifier::ext_equal]
pub struct StumpView {
    pub leafs: u64,
    pub roots: Seq<Hash256>,
}

impl View for Stump {
    type V = StumpView;

    open spec fn view(&self) -> StumpView {
        StumpView { leafs: self.leafs, roots: self.roots@ }
    }
}

impl Stump {
    /// The accumulator with nothing in it.
    pub fn new() -> (acc: Stump)
        ensures
            acc@ == (StumpView { leafs: 0, roots: seq![] }),
    {
        Stump { leafs: 0, roots: Vec::new() }
    }
}

/// A proof that leaves are in the accumulator: where they are, and the hashes that lead from them
/// to the roots.
#[derive(Debug)]
pub struct Proof {
    pub targets: Vec<u64>,
    pub hashes: Vec<Hash256>,
}

pub struct ProofView {
    pub targets: Seq<u64>,
    pub hashes: Seq<Hash256>,
}

impl View for Proof {
    type V = ProofView;

    open spec fn view(&self) -> ProofView {
        ProofView { targets: self.targets@, hashes: self.hashes@ }
    }
}

/// The node of the forest that a hash stands for: the hash of zeros is an empty node.
pub open spec fn node_of(hash: Hash256) -> Option<Hash256> {
    if hash.zero() {
        None
    } else {
        Some(hash)
    }
}

pub open spec fn nodes_of(hashes: Seq<Hash256>) -> Seq<Option<Hash256>> {
    hashes.map_values(|hash: Hash256| node_of(hash))
}

fn to_nodes(hashes: &Vec<Hash256>) -> (nodes: Vec<Option<Hash256>>)
    ensures
        nodes@ == nodes_of(hashes@),
{
    let mut nodes: Vec<Option<Hash256>> = Vec::new();
    let mut i: usize = 0;
    while i < hashes.len()
        invariant
            i <= hashes@.len(),
            nodes@ == nodes_of(hashes@).take(i as int),
        decreases hashes@.len() - i,
    {
        let hash = hashes[i];
        let node = if hash.is_zero() {
            None
        } else {
            Some(hash)
        };
        nodes.push(node);
        i += 1;
        assert(nodes@ =~= nodes_of(hashes@).take(i as int));
    }
    assert(nodes@ =~= nodes_of(hashes@));
    nodes
}

/// The result with the text of its error.
pub open spec fn with_text<T>(result: Result<T, String>) -> Result<T, Seq<char>> {
    match result {
        Ok(value) => Ok(value),
        Err(text) => Err(text@),
    }
}

/// The node at `position`, counted from the left end of a row of `width` nodes that stand over
/// `span` leaves each: its place in its row, the width of that row, and how many leaves it stands
/// over. The next row up follows behind each row, half as wide.
pub open spec fn node_at(position: nat, width: nat, span: nat) -> Option<(nat, nat, nat)>
    decreases width,
{
    if width == 0 {
        None
    } else if position < width {
        Some((position, width, span))
    } else {
        node_at((position - width) as nat, width / 2, 2 * span)
    }
}

/// `target` is a node of a forest that holds `leafs` leaves, more than 2 to the power of 61 and at
/// most 2 to the power of 62, so that its rows are half as wide as those that targets are counted
/// in.
pub open spec fn is_node(target: u64, leafs: u64) -> bool {
    match node_at(target as nat, 0x8000_0000_0000_0000, 1) {
        None => false,
        Some((offset, width, span)) => match node_at(offset, width / 2, span) {
            None => false,
            Some((place, _, leaves)) => place < leafs as nat / leaves,
        },
    }
}

/// The positions of `targets` can be computed with in 64 bits: there are few leaves, or the targets
/// are all nodes of the forest, or one of them is above every forest of this size, which is
/// noticed before any is computed with.
pub open spec fn positions_fit(leafs: u64, targets: Seq<u64>) -> bool {
    ||| leafs <= 0x2000_0000_0000_0000
    ||| leafs <= 0x4000_0000_0000_0000 && forall|i: int|
        0 <= i < targets.len() ==> is_node(#[trigger] targets[i], leafs)
    ||| leafs <= 0x4000_0000_0000_0000 && exists|i: int|
        0 <= i < targets.len() && #[trigger] targets[i] >= u64::MAX - 1
    ||| leafs <= 0x8000_0000_0000_0000 && exists|i: int|
        0 <= i < targets.len() && #[trigger] targets[i] == u64::MAX
}

/// A proof with `targets` for `deleted` hashes is answered without overflow: no position is
/// computed with, or the positions fit.
pub open spec fn is_answered(leafs: u64, roots: nat, targets: Seq<u64>, deleted: nat) -> bool {
    targets.len() == 0 || roots == 0 || targets.len() != deleted || positions_fit(leafs, targets)
}

/// What `rustreexo::stump::Stump::verify` returns, with the text of its error.
pub uninterp spec fn proof_checked(
    leafs: u64,
    roots: Seq<Option<Hash256>>,
    targets: Seq<u64>,
    hashes: Seq<Option<Hash256>>,
    deleted: Seq<Option<Hash256>>,
) -> Result<bool, Seq<char>>;

/// `rustreexo::stump::Stump::verify`: whether a proof shows that the hashes in `deleted` are in
/// the accumulator. It depends on the arguments alone. Where the proof has no targets, or the
/// accumulator is empty, it holds for no hashes and fails for any. Otherwise, where there is a
/// target for each hash, it computes with positions. These overflow above 2 to the power of 62
/// leaves, and above half as many for a target that is no node of the forest.
#[verifier::external_body]
fn stump_verify(
    leafs: u64,
    roots: &Vec<Option<Hash256>>,
    targets: &Vec<u64>,
    hashes: &Vec<Option<Hash256>>,
    deleted: &Vec<Option<Hash256>>,
) -> (verdict: Result<bool, String>)
    requires
        is_answered(leafs, roots@.len(), targets@, deleted@.len()),
    ensures
        with_text(verdict) == proof_checked(leafs, roots@, targets@, hashes@, deleted@),
        targets@.len() == 0 || roots@.len() == 0 || leafs == 0 ==> verdict is Ok && verdict->Ok_0
            == (deleted@.len() == 0),
{
    let node = |node: &Option<Hash256>|
        node.map_or(BitcoinNodeHash::Empty, |hash| BitcoinNodeHash::Some(hash.0));
    let roots = roots.iter().map(node).collect();
    let hashes = hashes.iter().map(node).collect();
    let deleted: Vec<BitcoinNodeHash> = deleted.iter().map(node).collect();
    let stump = RustreexoStump { leaves: leafs, roots };
    let proof = RustreexoProof { targets: targets.clone(), hashes };
    stump.verify(&proof, &deleted).map_err(|error| error.to_string())
}

/// What `rustreexo::stump::Stump::modify` returns, with the text of its error.
pub uninterp spec fn stump_modified(
    leafs: u64,
    roots: Seq<Option<Hash256>>,
    added: Seq<Option<Hash256>>,
    deleted: Seq<Option<Hash256>>,
    targets: Seq<u64>,
    hashes: Seq<Option<Hash256>>,
) -> Result<(u64, Seq<Hash256>), Seq<char>>;

/// `rustreexo::stump::Stump::modify`: the accumulator after the hashes in `deleted` were taken
/// out, as a proof shows where they are, and those in `added` were put in. It depends on the
/// arguments alone. Each added hash is one leaf more. An empty root comes back as its bytes, which
/// are zeros. Where hashes are taken out it computes with positions, which overflow as they do for
/// `rustreexo::stump::Stump::verify`.
#[verifier::external_body]
fn stump_modify(
    leafs: u64,
    roots: &Vec<Option<Hash256>>,
    added: &Vec<Option<Hash256>>,
    deleted: &Vec<Option<Hash256>>,
    targets: &Vec<u64>,
    hashes: &Vec<Option<Hash256>>,
) -> (modified: Result<(u64, Vec<Hash256>), String>)
    requires
        deleted@.len() == 0 || is_answered(leafs, roots@.len(), targets@, deleted@.len()),
    ensures
        (match modified {
            Ok((count, hashes)) => Ok((count, hashes@)),
            Err(text) => Err(text@),
        }) == stump_modified(leafs, roots@, added@, deleted@, targets@, hashes@),
        modified matches Ok((count, _)) ==> count == leafs + added@.len(),
{
    let node = |node: &Option<Hash256>|
        node.map_or(BitcoinNodeHash::Empty, |hash| BitcoinNodeHash::Some(hash.0));
    let [roots, added, deleted, hashes] = [roots, added, deleted, hashes].map(
        |nodes| nodes.iter().map(node).collect::<Vec<_>>(),
    );
    let stump = RustreexoStump { leaves: leafs, roots };
    let proof = RustreexoProof { targets: targets.clone(), hashes };
    let modified = stump.modify(&added, &deleted, &proof).map_err(|error| error.to_string())?;
    Ok((modified.leaves, modified.roots.iter().map(|root| Hash256(**root)).collect()))
}

/// The node at `position`.
fn find_node(position: u64, width: u64, span: u64) -> (node: Option<(u64, u64, u64)>)
    requires
        0 < span,
        width * span <= 0x8000_0000_0000_0000,
    ensures
        (match node {
            Some((place, width, leaves)) => Some((place as nat, width as nat, leaves as nat)),
            None => None,
        }) == node_at(position as nat, width as nat, span as nat),
        node matches Some((_, width, leaves)) ==> 0 < leaves && width * leaves
            <= 0x8000_0000_0000_0000,
{
    let mut rest: u64 = position;
    let mut row: u64 = width;
    let mut leaves: u64 = span;
    while row > 0
        invariant
            0 < leaves,
            row * leaves <= 0x8000_0000_0000_0000,
            node_at(position as nat, width as nat, span as nat) == node_at(
                rest as nat,
                row as nat,
                leaves as nat,
            ),
        decreases row,
    {
        if rest < row {
            return Some((rest, row, leaves));
        }
        if row == 1 {
            assert(node_at((rest - row) as nat, 0, 2 * leaves as nat) is None);
            return None;
        }
        assert(2 * leaves <= 0x8000_0000_0000_0000 && (row / 2) * (2 * leaves) <= row * leaves)
            by (nonlinear_arith)
            requires
                row >= 2,
                leaves > 0,
                row * leaves <= 0x8000_0000_0000_0000,
        ;
        rest = rest - row;
        row = row / 2;
        leaves = leaves * 2;
    }
    None
}

/// Whether `target` is a node of a forest that holds `leafs` leaves.
fn check_node(target: u64, leafs: u64) -> (answer: bool)
    ensures
        answer == is_node(target, leafs),
{
    match find_node(target, 0x8000_0000_0000_0000, 1) {
        None => false,
        Some((offset, width, span)) => {
            assert((width / 2) * span <= width * span) by (nonlinear_arith)
                requires
                    width >= 0,
                    span > 0,
            ;
            match find_node(offset, width / 2, span) {
                None => false,
                Some((place, _, leaves)) => place < leafs / leaves,
            }
        },
    }
}

/// Whether the positions of `targets` can be computed with.
fn check_positions(leafs: u64, targets: &Vec<u64>) -> (answer: bool)
    ensures
        answer == positions_fit(leafs, targets@),
{
    if leafs <= 0x2000_0000_0000_0000 {
        return true;
    }
    let mut all_nodes: bool = true;
    let mut one_above: bool = false;
    let mut one_highest: bool = false;
    let mut i: usize = 0;
    while i < targets.len()
        invariant
            i <= targets@.len(),
            all_nodes <==> forall|j: int| 0 <= j < i ==> is_node(#[trigger] targets@[j], leafs),
            one_above <==> exists|j: int| 0 <= j < i && #[trigger] targets@[j] >= u64::MAX - 1,
            one_highest <==> exists|j: int| 0 <= j < i && #[trigger] targets@[j] == u64::MAX,
        decreases targets@.len() - i,
    {
        let target: u64 = targets[i];
        let node: bool = check_node(target, leafs);
        assert(target == targets@[i as int]);
        all_nodes = all_nodes && node;
        one_above = one_above || target >= u64::MAX - 1;
        one_highest = one_highest || target == u64::MAX;
        i += 1;
    }
    (leafs <= 0x4000_0000_0000_0000 && (all_nodes || one_above)) || (leafs
        <= 0x8000_0000_0000_0000 && one_highest)
}

impl StumpView {
    /// Whether `proof` holds for `deleted` can be told without overflow.
    pub open spec fn answers(self, proof: ProofView, deleted: Seq<Hash256>) -> bool {
        is_answered(self.leafs, self.roots.len(), proof.targets, deleted.len())
    }

    /// What checking `proof` for `deleted` against this accumulator ends in.
    pub open spec fn checked(self, proof: ProofView, deleted: Seq<Hash256>) -> Result<
        bool,
        Seq<char>,
    > {
        proof_checked(
            self.leafs,
            nodes_of(self.roots),
            proof.targets,
            nodes_of(proof.hashes),
            nodes_of(deleted),
        )
    }

    /// This accumulator after `deleted` left it and `added` came in.
    pub open spec fn modified(
        self,
        added: Seq<Hash256>,
        deleted: Seq<Hash256>,
        proof: ProofView,
    ) -> Result<StumpView, Seq<char>> {
        match stump_modified(
            self.leafs,
            nodes_of(self.roots),
            nodes_of(added),
            nodes_of(deleted),
            proof.targets,
            nodes_of(proof.hashes),
        ) {
            Ok((leafs, roots)) => Ok(StumpView { leafs, roots }),
            Err(text) => Err(text),
        }
    }
}

impl Stump {
    /// Whether it can be told without overflow if `proof` holds for `deleted`.
    pub fn answers(&self, proof: &Proof, deleted: &Vec<Hash256>) -> (answer: bool)
        ensures
            answer == self@.answers(proof@, deleted@),
    {
        proof.targets.len() == 0 || self.roots.len() == 0 || proof.targets.len() != deleted.len()
            || check_positions(self.leafs, &proof.targets)
    }

    /// Whether `proof` shows that `deleted` are in the accumulator.
    pub fn verify(&self, proof: &Proof, deleted: &Vec<Hash256>) -> (verdict: Result<bool, String>)
        requires
            self@.answers(proof@, deleted@),
        ensures
            with_text(verdict) == self@.checked(proof@, deleted@),
            proof@.targets.len() == 0 || self@.roots.len() == 0 || self@.leafs == 0 ==> {
                verdict is Ok && verdict->Ok_0 == (deleted@.len() == 0)
            },
    {
        stump_verify(
            self.leafs,
            &to_nodes(&self.roots),
            &proof.targets,
            &to_nodes(&proof.hashes),
            &to_nodes(deleted),
        )
    }

    /// The accumulator after `deleted` left it and `added` came in.
    pub fn modify(&self, added: &Vec<Hash256>, deleted: &Vec<Hash256>, proof: &Proof) -> (modified:
        Result<Stump, String>)
        requires
            deleted@.len() == 0 || self@.answers(proof@, deleted@),
        ensures
            (match modified {
                Ok(stump) => Ok(stump@),
                Err(text) => Err(text@),
            }) == self@.modified(added@, deleted@, proof@),
            modified matches Ok(stump) ==> stump.leafs == self.leafs + added@.len(),
    {
        match stump_modify(
            self.leafs,
            &to_nodes(&self.roots),
            &to_nodes(added),
            &to_nodes(deleted),
            &proof.targets,
            &to_nodes(&proof.hashes),
        ) {
            Ok((leafs, roots)) => Ok(Stump { leafs, roots }),
            Err(text) => Err(text),
        }
    }
}

impl StumpView {
    /// The form in which the accumulator is stored: the number of leaves, then the roots.
    pub open spec fn encoded(self) -> Seq<u8> {
        le_bytes(self.leafs as nat, 8) + hash_bytes(self.roots)
    }

    /// The accumulator that `bytes` hold.
    pub open spec fn decoded(bytes: Seq<u8>) -> StumpView {
        StumpView { leafs: le_value(bytes.take(8)) as u64, roots: hashes_from(bytes.skip(8)) }
    }
}

/// `bytes` hold an accumulator: the number of leaves is there, and what follows it is whole
/// hashes, or not even one.
pub open spec fn holds_stump(bytes: Seq<u8>) -> bool {
    bytes.len() >= 8 && (bytes.len() < 40 || (bytes.len() - 8) % 32 == 0)
}

impl Stump {
    /// The form in which the accumulator is stored.
    pub fn serialize(&self) -> (bytes: Vec<u8>)
        ensures
            bytes@ == self@.encoded(),
    {
        let mut bytes: Vec<u8> = Vec::new();
        write_u64(self.leafs, &mut bytes);
        write_hashes(&self.roots, &mut bytes);
        assert(bytes@ =~= self@.encoded());
        bytes
    }

    /// Reads an accumulator from the form in which it is stored.
    pub fn deserialize(bytes: &Vec<u8>) -> (acc: Option<Stump>)
        ensures
            acc is Some <==> holds_stump(bytes@),
            acc matches Some(acc) ==> acc@ == StumpView::decoded(bytes@),
    {
        let length: usize = bytes.len();
        if length < 8 || (length >= 40 && (length - 8) % 32 != 0) {
            return None;
        }
        let leafs: u64 = read_u64(bytes.as_slice(), 0);
        let roots = read_hashes(bytes.as_slice(), 8);
        assert(bytes@.subrange(0, 8) =~= bytes@.take(8));
        Some(Stump { leafs, roots })
    }
}

/// An accumulator reads back from the form in which it is stored.
pub proof fn law_stump_round_trip(acc: StumpView)
    ensures
        holds_stump(acc.encoded()),
        StumpView::decoded(acc.encoded()) == acc,
{
    let bytes = acc.encoded();
    lemma_pow256_values();
    lemma_le_round_trip(acc.leafs as nat, 8);
    lemma_hash_bytes(acc.roots);
    lemma_hashes_from(acc.roots);
    assert(bytes.take(8) =~= le_bytes(acc.leafs as nat, 8));
    assert(bytes.skip(8) =~= hash_bytes(acc.roots));
}

/// A hash with a byte that is not zero is a node of its own, and only the hash of 32 zeros is an
/// empty one.
pub proof fn law_only_zeros_are_empty(hashes: Seq<Hash256>, i: int)
    requires
        0 <= i < hashes.len(),
    ensures
        nodes_of(hashes).len() == hashes.len(),
        nodes_of(hashes)[i] == (if forall|k: int| 0 <= k < 32 ==> #[trigger] hashes[i].0@[k] == 0 {
            None::<Hash256>
        } else {
            Some(hashes[i])
        }),
{
    let hash = hashes[i];
    assert(hash.zero() == forall|k: int| 0 <= k < 32 ==> #[trigger] hash.0@[k] == 0);
}

/// The stored form of an accumulator is the number of its leaves in eight bytes, least significant
/// first, and then its roots, 32 bytes each, in order.
pub proof fn law_stump_by_byte(acc: StumpView, k: nat, i: int, j: int)
    requires
        k < 8,
        0 <= i < acc.roots.len(),
        0 <= j < 32,
    ensures
        acc.encoded().len() == 8 + 32 * acc.roots.len(),
        acc.encoded()[k as int] == (acc.leafs as nat / pow256(k)) % 256,
        acc.encoded()[8 + 32 * i + j] == acc.roots[i].0@[j],
{
    law_bytes_by_weight(acc.leafs as nat, 8, k);
    law_hashes_by_byte(acc.roots, i, j);
}

/// Fewer than 32 bytes behind the number of leaves make no root and do no harm. Behind a root they
/// do, and so does a number of leaves that is cut short.
pub proof fn law_stump_with_more_bytes(acc: StumpView, rest: Seq<u8>, cut: Seq<u8>)
    requires
        0 < rest.len() < 32,
        cut.len() < 8,
    ensures
        holds_stump(acc.encoded() + rest) <==> acc.roots.len() == 0,
        StumpView::decoded(acc.encoded() + rest) == acc,
        !holds_stump(cut),
{
    let bytes = acc.encoded() + rest;
    lemma_pow256_values();
    lemma_le_round_trip(acc.leafs as nat, 8);
    lemma_hash_bytes(acc.roots);
    law_hashes_read_back(acc.roots, rest);
    assert(bytes.take(8) =~= le_bytes(acc.leafs as nat, 8));
    assert(bytes.skip(8) =~= hash_bytes(acc.roots) + rest);
}

/// Every proof is answered that a forest of up to 2 to the power of 61 leaves can be asked, and so
/// is every proof for leaves of a forest of up to twice that size. Nothing is computed for a proof
/// without targets, for an empty forest, or where hashes and targets do not pair up.
pub proof fn law_proofs_are_answered(acc: StumpView, proof: ProofView, deleted: Seq<Hash256>)
    requires
        ({
            ||| acc.leafs <= 0x2000_0000_0000_0000
            ||| acc.leafs <= 0x4000_0000_0000_0000 && forall|i: int|
                0 <= i < proof.targets.len() ==> #[trigger] proof.targets[i] < acc.leafs
            ||| proof.targets.len() == 0
            ||| acc.roots.len() == 0
            ||| proof.targets.len() != deleted.len()
        }),
    ensures
        acc.answers(proof, deleted),
{
    if acc.leafs <= 0x4000_0000_0000_0000 && forall|i: int|
        0 <= i < proof.targets.len() ==> #[trigger] proof.targets[i] < acc.leafs {
        assert forall|i: int| 0 <= i < proof.targets.len() implies is_node(
            #[trigger] proof.targets[i],
            acc.leafs,
        ) by {
            let target = proof.targets[i] as nat;
            assert(node_at(target, 0x8000_0000_0000_0000, 1) == Some(
                (target, 0x8000_0000_0000_0000nat, 1nat),
            ));
            assert(node_at(target, 0x4000_0000_0000_0000, 1) == Some(
                (target, 0x4000_0000_0000_0000nat, 1nat),
            ));
            assert(acc.leafs as nat / 1 == acc.leafs);
        }
    }
}

/// Above 2 to the power of 63 leaves no proof with paired targets is answered.
pub proof fn law_too_many_leaves(acc: StumpView, proof: ProofView, deleted: Seq<Hash256>)
    requires
        acc.leafs > 0x8000_0000_0000_0000,
        acc.roots.len() > 0,
        proof.targets.len() > 0,
        proof.targets.len() == deleted.len(),
    ensures
        !acc.answers(proof, deleted),
{
}

/// Row `row` of a forest with 2 to the power of `rows` leaves comes behind the rows below it, and
/// its nodes stand over 2 to the power of `row` leaves each.
proof fn lemma_row(rows: nat, row: nat, place: nat, span: nat)
    requires
        row <= rows,
        place < pow2((rows - row) as nat),
    ensures
        pow2((rows + 1 - row) as nat) <= pow2(rows + 1),
        node_at(
            (pow2(rows + 1) - pow2((rows + 1 - row) as nat) + place) as nat,
            pow2(rows),
            span,
        ) == Some((place, pow2((rows - row) as nat), pow2(row) * span)),
    decreases row,
{
    lemma_pow2_pos(rows);
    lemma_pow2_unfold(rows + 1);
    if row == 0 {
        lemma2_to64();
        assert(pow2(0) * span == span);
    } else {
        let (less, up) = ((rows - 1) as nat, (row - 1) as nat);
        lemma_pow2_unfold(rows);
        lemma_pow2_unfold(row);
        lemma_row(less, up, place, 2 * span);
        let position = (pow2(rows + 1) - pow2((rows + 1 - row) as nat) + place) as nat;
        assert(pow2((less + 1 - up) as nat) == pow2((rows + 1 - row) as nat));
        assert(position >= pow2(rows));
        assert(pow2(rows) / 2 == pow2(less));
        assert(pow2(row) * span == pow2(up) * (2 * span)) by (nonlinear_arith)
            requires
                pow2(row) == 2 * pow2(up),
        ;
    }
}

/// Which targets are nodes of a forest: a target is counted in rows that start with 2 to the power
/// of 63 positions, each half as wide as the one below. Within its row it is counted again in rows
/// that start with half of that one. The node at `place` of the row that it falls in, `row` and
/// `above` rows up, is there exactly where enough leaves are, 2 to the power of that for each node.
pub proof fn law_nodes_of_a_forest(row: nat, above: nat, place: nat, target: u64, leafs: u64)
    requires
        row + above <= 62,
        place < pow2((62 - row - above) as nat),
        target == pow2(64) - pow2((64 - row) as nat) + (pow2((63 - row) as nat) - pow2(
            (63 - row - above) as nat,
        )) + place,
    ensures
        is_node(target, leafs) <==> place < leafs as nat / pow2(row + above),
{
    lemma2_to64();
    lemma2_to64_rest();
    let width = pow2((63 - row) as nat);
    let offset = (width - pow2((63 - row - above) as nat) + place) as nat;
    lemma_pow2_unfold((63 - row) as nat);
    lemma_pow2_unfold((63 - row - above) as nat);
    lemma_row((62 - row) as nat, above, place, pow2(row));
    assert(offset < width);
    lemma_row(63, row, offset, 1);
    assert(width / 2 == pow2((62 - row) as nat));
    vstd::arithmetic::power2::lemma_pow2_adds(above, row);
    assert(pow2(row) * 1 == pow2(row));
}

/// Between 2 to the power of 61 and of 62 leaves, a proof with paired targets is answered exactly
/// where all its targets are nodes of the forest or one of them is one of the two highest numbers,
/// and up to twice as many leaves only where one is the highest number of all.
pub proof fn law_large_forests(acc: StumpView, proof: ProofView, deleted: Seq<Hash256>)
    requires
        acc.leafs > 0x2000_0000_0000_0000,
        acc.roots.len() > 0,
        proof.targets.len() > 0,
        proof.targets.len() == deleted.len(),
    ensures
        acc.leafs <= 0x4000_0000_0000_0000 ==> (acc.answers(proof, deleted) <==> {
            ||| forall|i: int|
                0 <= i < proof.targets.len() ==> is_node(#[trigger] proof.targets[i], acc.leafs)
            ||| proof.targets.contains(0xffff_ffff_ffff_fffe)
            ||| proof.targets.contains(0xffff_ffff_ffff_ffff)
        }),
        0x4000_0000_0000_0000 < acc.leafs <= 0x8000_0000_0000_0000 ==> (acc.answers(proof, deleted)
            <==> proof.targets.contains(0xffff_ffff_ffff_ffff)),
{
    let targets = proof.targets;
    if targets.contains(0xffff_ffff_ffff_fffe) {
        let i = choose|i: int| 0 <= i < targets.len() && targets[i] == 0xffff_ffff_ffff_fffe;
        assert(targets[i] >= u64::MAX - 1);
    }
    if targets.contains(0xffff_ffff_ffff_ffff) {
        let i = choose|i: int| 0 <= i < targets.len() && targets[i] == 0xffff_ffff_ffff_ffff;
        assert(targets[i] == u64::MAX);
    }
    if exists|i: int| 0 <= i < targets.len() && #[trigger] targets[i] >= u64::MAX - 1 {
        let i = choose|i: int| 0 <= i < targets.len() && #[trigger] targets[i] >= u64::MAX - 1;
        assert(targets.contains(targets[i]));
    }
    if exists|i: int| 0 <= i < targets.len() && #[trigger] targets[i] == u64::MAX {
        let i = choose|i: int| 0 <= i < targets.len() && #[trigger] targets[i] == u64::MAX;
        assert(targets.contains(targets[i]));
    }
}

} // verus!
