//! Blocks and transactions as plain values.

use vstd::prelude::*;

use bitcoin::bitcoinconsensus::Error;
use bitcoin::blockdata::constants::genesis_block;
use bitcoin::blockdata::script;
use bitcoin::hashes;
use bitcoin::util::hash::bitcoin_merkle_root;
use bitcoin::{Network, PackedLockTime, Script, Sequence, Witness};
use bitcoin::{OutPoint as BitcoinOutPoint, TxIn as BitcoinTxIn, TxOut as BitcoinTxOut};

use crate::encoding::{compact_size, le_bytes, le_value};
use crate::error::ScriptError;
use crate::hash::{BlockHash, Hash256, Txid};
use crate::uint::{compact_value, Uint256};

verus! {

/// The header of a block.
#[derive(Clone, Copy, Debug)]
pub struct BlockHeader {
    pub version: i32,
    /// The block that this one follows.
    pub prev_blockhash: BlockHash,
    /// The root of the merkle tree over the block's transactions.
    pub merkle_root: Hash256,
    /// Seconds since the Unix epoch, as the miner claims.
    pub time: u32,
    /// The target that the block's hash must not exceed, in compact form.
    pub bits: u32,
    pub nonce: u32,
}

/// What `bitcoin::BlockHeader::block_hash` returns.
pub uninterp spec fn block_hash_of(header: BlockHeader) -> BlockHash;

impl BlockHeader {
    /// `bitcoin::BlockHeader::block_hash`: the hash that names the block. It depends on the
    /// header alone.
    #[verifier::external_body]
    pub(crate) fn block_hash(&self) -> (hash: BlockHash)
        ensures
            hash == block_hash_of(*self),
    {
        let header = bitcoin::BlockHeader {
            version: self.version,
            prev_blockhash: hashes::Hash::from_inner(self.prev_blockhash.0),
            merkle_root: hashes::Hash::from_inner(self.merkle_root.0),
            time: self.time,
            bits: self.bits,
            nonce: self.nonce,
        };
        Hash256(hashes::Hash::into_inner(header.block_hash()))
    }

    /// The largest number that the block's hash may be.
    pub fn target(&self) -> (target: Uint256)
        ensures
            target@ == compact_value(self.bits),
    {
        Uint256::from_compact(self.bits)
    }

    /// The header claims exactly the target `required`, and its hash, read as a little-endian
    /// number, does not exceed it.
    pub open spec fn meets(self, required: nat) -> bool {
        compact_value(self.bits) == required && le_value(block_hash_of(self)@) <= required
    }

    /// `bitcoin::BlockHeader::validate_pow`: checks the proof of work against the target that the
    /// chain requires, and returns the block's hash where it holds.
    #[verifier::external_body]
    pub(crate) fn validate_pow(&self, required: &Uint256) -> (hash: Option<BlockHash>)
        ensures
            hash == (if self.meets(required@) {
                Some(block_hash_of(*self))
            } else {
                None
            }),
    {
        let header = bitcoin::BlockHeader {
            version: self.version,
            prev_blockhash: hashes::Hash::from_inner(self.prev_blockhash.0),
            merkle_root: hashes::Hash::from_inner(self.merkle_root.0),
            time: self.time,
            bits: self.bits,
            nonce: self.nonce,
        };
        let verdict = header.validate_pow(&bitcoin::util::uint::Uint256(required.0));
        verdict.ok().map(|hash| Hash256(hashes::Hash::into_inner(hash)))
    }
}

/// A reference to an output of an earlier transaction.
#[derive(Clone, Copy, Debug, Eq)]
pub struct OutPoint {
    pub txid: Txid,
    pub vout: u32,
}

impl PartialEq for OutPoint {
    fn eq(&self, other: &Self) -> (same: bool) {
        self.vout == other.vout && self.txid == other.txid
    }
}

impl vstd::std_specs::cmp::PartialEqSpecImpl for OutPoint {
    open spec fn obeys_eq_spec() -> bool {
        true
    }

    open spec fn eq_spec(&self, other: &Self) -> bool {
        *self == *other
    }
}

impl OutPoint {
    /// The reference that refers to nothing, which only a coinbase carries.
    pub open spec fn null(self) -> bool {
        self.txid.zero() && self.vout == u32::MAX
    }

    pub fn is_null(&self) -> (answer: bool)
        ensures
            answer == self.null(),
    {
        self.vout == u32::MAX && self.txid.is_zero()
    }
}

/// A transaction output.
#[derive(Debug)]
pub struct TxOut {
    /// Satoshis.
    pub value: u64,
    pub script_pubkey: Vec<u8>,
}

pub struct TxOutView {
    pub value: u64,
    pub script_pubkey: Seq<u8>,
}

impl View for TxOut {
    type V = TxOutView;

    open spec fn view(&self) -> TxOutView {
        TxOutView { value: self.value, script_pubkey: self.script_pubkey@ }
    }
}

impl Clone for TxOut {
    fn clone(&self) -> (copy: Self)
        ensures
            copy@ == self@,
    {
        let script_pubkey = self.script_pubkey.clone();
        assert(script_pubkey@ =~= self.script_pubkey@);
        TxOut { value: self.value, script_pubkey }
    }
}

/// The first opcodes that no input can satisfy: those that end the script at once, and those that
/// are disabled or invalid.
pub open spec fn fails_at_once(opcode: u8) -> bool {
    ||| opcode == 0x6a || opcode == 0x50 || opcode == 0x62 || opcode == 0x89 || opcode == 0x8a
    ||| opcode == 0x65 || opcode == 0x66
    ||| 0x7e <= opcode <= 0x81 || 0x83 <= opcode <= 0x86 || 0x8d <= opcode <= 0x8e
    ||| 0x95 <= opcode <= 0x99
    ||| opcode >= 0xba
}

impl TxOutView {
    /// The bytes of the output: the value, then the script behind its length.
    pub open spec fn encoded(self) -> Seq<u8> {
        le_bytes(self.value as nat, 8) + compact_size(self.script_pubkey.len())
            + self.script_pubkey
    }

    /// No input can spend the output.
    pub open spec fn unspendable(self) -> bool {
        self.script_pubkey.len() > 0 && fails_at_once(self.script_pubkey[0])
    }
}

impl TxOut {
    /// `bitcoin::consensus::serialize` on a `bitcoin::TxOut`: its consensus encoding, which is
    /// the value in eight bytes, the length of the script, and the script.
    #[verifier::external_body]
    pub(crate) fn serialize(&self) -> (bytes: Vec<u8>)
        ensures
            bytes@ == self@.encoded(),
    {
        bitcoin::consensus::serialize(
            &BitcoinTxOut {
                value: self.value,
                script_pubkey: Script::from(self.script_pubkey.clone()),
            },
        )
    }

    /// `bitcoin::Script::is_provably_unspendable` on the output's script: whether its first
    /// opcode already makes it fail.
    #[verifier::external_body]
    pub(crate) fn is_provably_unspendable(&self) -> (answer: bool)
        ensures
            answer == self@.unspendable(),
    {
        Script::from(self.script_pubkey.clone()).is_provably_unspendable()
    }
}

/// A transaction input.
#[derive(Debug)]
pub struct TxIn {
    /// The output that is spent.
    pub previous_output: OutPoint,
    pub script_sig: Vec<u8>,
    pub sequence: u32,
    pub witness: Vec<Vec<u8>>,
}

pub struct TxInView {
    pub previous_output: OutPoint,
    pub script_sig: Seq<u8>,
    pub sequence: u32,
    pub witness: Seq<Seq<u8>>,
}

/// The contents of each vector.
pub open spec fn contents(items: Seq<Vec<u8>>) -> Seq<Seq<u8>> {
    items.map_values(|item: Vec<u8>| item@)
}

impl View for TxIn {
    type V = TxInView;

    open spec fn view(&self) -> TxInView {
        TxInView {
            previous_output: self.previous_output,
            script_sig: self.script_sig@,
            sequence: self.sequence,
            witness: contents(self.witness@),
        }
    }
}

impl Clone for TxIn {
    fn clone(&self) -> (copy: Self)
        ensures
            copy@ == self@,
    {
        let script_sig = self.script_sig.clone();
        assert(script_sig@ =~= self.script_sig@);
        let mut witness: Vec<Vec<u8>> = Vec::new();
        let mut i: usize = 0;
        while i < self.witness.len()
            invariant
                i <= self.witness@.len(),
                contents(witness@) == contents(self.witness@).take(i as int),
            decreases self.witness@.len() - i,
        {
            let item = self.witness[i].clone();
            assert(item@ =~= self.witness@[i as int]@);
            let ghost before = witness@;
            witness.push(item);
            i += 1;
            assert(contents(witness@) =~= contents(before).push(item@));
            assert(contents(witness@) =~= contents(self.witness@).take(i as int));
        }
        assert(contents(self.witness@).take(i as int) =~= contents(self.witness@));
        TxIn { previous_output: self.previous_output, script_sig, sequence: self.sequence, witness }
    }
}

/// A transaction.
#[derive(Debug)]
pub struct Transaction {
    pub version: i32,
    pub lock_time: u32,
    pub input: Vec<TxIn>,
    pub output: Vec<TxOut>,
}

pub struct TransactionView {
    pub version: i32,
    pub lock_time: u32,
    pub input: Seq<TxInView>,
    pub output: Seq<TxOutView>,
}

impl View for Transaction {
    type V = TransactionView;

    open spec fn view(&self) -> TransactionView {
        TransactionView {
            version: self.version,
            lock_time: self.lock_time,
            input: self.input@.map_values(|input: TxIn| input@),
            output: self.output@.map_values(|output: TxOut| output@),
        }
    }
}

impl Clone for Transaction {
    fn clone(&self) -> (copy: Self)
        ensures
            copy@ == self@,
    {
        let input = self.input.clone();
        let output = self.output.clone();
        let copy = Transaction { version: self.version, lock_time: self.lock_time, input, output };
        assert(copy@.input =~= self@.input);
        assert(copy@.output =~= self@.output);
        copy
    }
}

/// What `bitcoin::Transaction::txid` returns for a transaction whose witnesses are of no account.
pub uninterp spec fn stripped_txid(stripped: TransactionView) -> Txid;

/// The name of a transaction, which its witnesses do not enter.
pub open spec fn txid_of(transaction: TransactionView) -> Txid {
    stripped_txid(transaction.stripped())
}

/// What `bitcoin::consensus::serialize` returns for a transaction.
pub uninterp spec fn transaction_bytes(transaction: TransactionView) -> Seq<u8>;

/// What `bitcoin::Script::verify` says: whether a script that guards `value` lets input `index` of
/// the transaction with the bytes `spending` spend it, or why not.
pub uninterp spec fn script_verdict(
    script: Seq<u8>,
    index: usize,
    value: u64,
    spending: Seq<u8>,
) -> Result<(), ScriptError>;

/// `bitcoin::Script::verify`: runs a script with the consensus library against an input of a
/// serialized transaction. The answer depends on the arguments alone, and each error of the
/// consensus library is told apart.
#[verifier::external_body]
fn verify_script(script: &Vec<u8>, index: usize, value: u64, spending: &Vec<u8>) -> (verdict:
    Result<(), ScriptError>)
    ensures
        verdict == script_verdict(script@, index, value, spending@),
{
    let script = Script::from(script.clone());
    let verdict = script.verify(index, bitcoin::Amount::from_sat(value), spending);
    verdict.map_err(|error| match error {
        script::Error::BitcoinConsensus(Error::ERR_SCRIPT) => ScriptError::Script,
        script::Error::BitcoinConsensus(Error::ERR_TX_INDEX) => ScriptError::TxIndex,
        script::Error::BitcoinConsensus(Error::ERR_TX_SIZE_MISMATCH) => ScriptError::TxSizeMismatch,
        script::Error::BitcoinConsensus(Error::ERR_TX_DESERIALIZE) => ScriptError::TxDeserialize,
        script::Error::BitcoinConsensus(Error::ERR_AMOUNT_REQUIRED) => ScriptError::AmountRequired,
        script::Error::BitcoinConsensus(Error::ERR_INVALID_FLAGS) => ScriptError::InvalidFlags,
        _ => ScriptError::Other,
    })
}

impl TxInView {
    /// The input without its witness.
    pub open spec fn stripped(self) -> TxInView {
        TxInView { witness: seq![], ..self }
    }
}

impl TransactionView {
    /// The transaction without the witnesses of its inputs.
    pub open spec fn stripped(self) -> TransactionView {
        TransactionView { input: self.input.map_values(|input: TxInView| input.stripped()), ..self }
    }

    /// The transaction that creates a block's new coins: its one input refers to nothing.
    pub open spec fn coin_base(self) -> bool {
        self.input.len() == 1 && self.input[0].previous_output.null()
    }

    /// What the script of `spent` says to input `index` of this transaction spending it.
    pub open spec fn spend_verdict(self, index: int, spent: TxOutView) -> Result<(), ScriptError> {
        script_verdict(
            spent.script_pubkey,
            index as usize,
            spent.value,
            transaction_bytes(self),
        )
    }

    /// The script of `spent` lets input `index` of this transaction spend it.
    pub open spec fn may_spend(self, index: int, spent: TxOutView) -> bool {
        self.spend_verdict(index, spent) is Ok
    }
}

impl Transaction {
    /// Whether this is the transaction that creates a block's new coins.
    pub fn is_coin_base(&self) -> (answer: bool)
        ensures
            answer == self@.coin_base(),
    {
        self.input.len() == 1 && self.input[0].previous_output.is_null()
    }

    /// `bitcoin::Transaction::txid`: the hash that names the transaction. It depends on the
    /// transaction alone, and on nothing of its witnesses.
    #[verifier::external_body]
    pub(crate) fn txid(&self) -> (txid: Txid)
        ensures
            txid == stripped_txid(self@.stripped()),
    {
        let input = self.input.iter().map(|i| BitcoinTxIn {
            previous_output: BitcoinOutPoint::new(hashes::Hash::from_inner(i.previous_output.txid.0), i.previous_output.vout),
            script_sig: i.script_sig.clone().into(),
            sequence: Sequence(i.sequence),
            witness: Witness::from_vec(i.witness.clone()),
        });
        let output = self.output.iter().map(|o| BitcoinTxOut {
            value: o.value,
            script_pubkey: o.script_pubkey.clone().into(),
        });
        let (version, lock_time) = (self.version, PackedLockTime(self.lock_time));
        let transaction = bitcoin::Transaction { version, lock_time, input: input.collect(), output: output.collect() };
        Hash256(hashes::Hash::into_inner(transaction.txid()))
    }

    /// `bitcoin::consensus::serialize` on a `bitcoin::Transaction`: its consensus encoding,
    /// witnesses included. It depends on the transaction alone.
    #[verifier::external_body]
    pub(crate) fn serialize(&self) -> (bytes: Vec<u8>)
        ensures
            bytes@ == transaction_bytes(self@),
    {
        let input = self.input.iter().map(|i| BitcoinTxIn {
            previous_output: BitcoinOutPoint::new(hashes::Hash::from_inner(i.previous_output.txid.0), i.previous_output.vout),
            script_sig: i.script_sig.clone().into(),
            sequence: Sequence(i.sequence),
            witness: Witness::from_vec(i.witness.clone()),
        });
        let output = self.output.iter().map(|o| BitcoinTxOut {
            value: o.value,
            script_pubkey: o.script_pubkey.clone().into(),
        });
        let (version, lock_time) = (self.version, PackedLockTime(self.lock_time));
        let transaction = bitcoin::Transaction { version, lock_time, input: input.collect(), output: output.collect() };
        bitcoin::consensus::serialize(&transaction)
    }

    /// What the script of `spent` says to input `index` spending it. `spending` is the serialized
    /// transaction.
    pub(crate) fn spend_verdict(&self, index: usize, spent: &TxOut, spending: &Vec<u8>) -> (verdict:
        Result<(), ScriptError>)
        requires
            spending@ == transaction_bytes(self@),
        ensures
            verdict == self@.spend_verdict(index as int, spent@),
    {
        verify_script(&spent.script_pubkey, index, spent.value, spending)
    }
}

/// A block.
#[derive(Debug)]
pub struct Block {
    pub header: BlockHeader,
    pub txdata: Vec<Transaction>,
}

pub struct BlockView {
    pub header: BlockHeader,
    pub txdata: Seq<TransactionView>,
}

/// The contents of each transaction.
pub open spec fn transaction_views(transactions: Seq<Transaction>) -> Seq<TransactionView> {
    transactions.map_values(|transaction: Transaction| transaction@)
}

impl View for Block {
    type V = BlockView;

    open spec fn view(&self) -> BlockView {
        BlockView { header: self.header, txdata: transaction_views(self.txdata@) }
    }
}

impl Clone for Block {
    fn clone(&self) -> (copy: Self)
        ensures
            copy@ == self@,
    {
        let copy = Block { header: self.header, txdata: self.txdata.clone() };
        assert(copy@.txdata =~= self@.txdata);
        copy
    }
}

/// What `bitcoin::util::hash::bitcoin_merkle_root` returns.
pub uninterp spec fn merkle_root_of(hashes: Seq<Hash256>) -> Option<Hash256>;

/// `bitcoin::util::hash::bitcoin_merkle_root`: the root of the merkle tree over `hashes`, which
/// depends on them alone. No hashes have no root, and a single one is its own.
#[verifier::external_body]
fn merkle_root(hashes: &Vec<Hash256>) -> (root: Option<Hash256>)
    ensures
        root == merkle_root_of(hashes@),
        hashes@.len() == 0 ==> root is None,
        hashes@.len() == 1 ==> root == Some(hashes@[0]),
{
    let hashes = hashes.iter().map(|hash| hashes::Hash::from_inner(hash.0));
    let root: Option<hashes::sha256d::Hash> =
        bitcoin_merkle_root(hashes);
    root.map(|root| Hash256(hashes::Hash::into_inner(root)))
}

/// What `bitcoin::Block::check_witness_commitment` returns for a block with these transactions.
pub uninterp spec fn witness_committed(transactions: Seq<TransactionView>) -> bool;

impl BlockView {
    /// The names of the block's transactions.
    pub open spec fn txids(self) -> Seq<Txid> {
        self.txdata.map_values(|transaction: TransactionView| txid_of(transaction))
    }

    /// The header holds the root of the merkle tree over the block's transactions.
    pub open spec fn merkle_root_matches(self) -> bool {
        merkle_root_of(self.txids()) == Some(self.header.merkle_root)
    }
}

impl Block {
    /// The hash that names the block.
    pub fn block_hash(&self) -> (hash: BlockHash)
        ensures
            hash == block_hash_of(self.header),
    {
        self.header.block_hash()
    }

    /// Whether the header holds the root of the merkle tree over the block's transactions.
    pub fn check_merkle_root(&self) -> (answer: bool)
        ensures
            answer == self@.merkle_root_matches(),
    {
        let mut txids: Vec<Txid> = Vec::new();
        let mut i: usize = 0;
        while i < self.txdata.len()
            invariant
                i <= self.txdata@.len(),
                txids@ == self@.txids().take(i as int),
            decreases self.txdata@.len() - i,
        {
            txids.push(self.txdata[i].txid());
            i += 1;
            assert(txids@ =~= self@.txids().take(i as int));
        }
        assert(txids@ =~= self@.txids());
        match merkle_root(&txids) {
            Some(root) => root == self.header.merkle_root,
            None => false,
        }
    }

    /// `bitcoin::Block::check_witness_commitment`: whether the coinbase commits to the witnesses
    /// of the transactions. It reads the transactions alone, so that any header will do, and holds
    /// where none of them has a witness.
    #[verifier::external_body]
    pub(crate) fn check_witness_commitment(&self) -> (answer: bool)
        ensures
            answer == witness_committed(self@.txdata),
            (forall|t: int, i: int|
                0 <= t < self@.txdata.len() && 0 <= i < self@.txdata[t].input.len()
                    ==> self@.txdata[t].input[i].witness.len() == 0) ==> answer,
    {
        let txdata = self.txdata.iter().map(|t| bitcoin::Transaction {
            version: t.version,
            lock_time: PackedLockTime(t.lock_time),
            input: t.input.iter().map(|i| BitcoinTxIn {
                previous_output: BitcoinOutPoint::new(hashes::Hash::from_inner(i.previous_output.txid.0), i.previous_output.vout),
                script_sig: i.script_sig.clone().into(),
                sequence: Sequence(i.sequence),
                witness: Witness::from_vec(i.witness.clone()),
            }).collect(),
            output: t.output.iter().map(|o| BitcoinTxOut { value: o.value, script_pubkey: o.script_pubkey.clone().into() }).collect(),
        }).collect();
        bitcoin::Block { header: genesis_block(Network::Bitcoin).header, txdata }
            .check_witness_commitment()
    }
}

/// A block is seen with all that it holds, transaction by transaction.
pub proof fn law_blocks_are_seen(block: Block, t: int, i: int, o: int)
    requires
        0 <= t < block.txdata@.len(),
        0 <= i < block.txdata@[t].input@.len(),
        0 <= o < block.txdata@[t].output@.len(),
    ensures
        block@.header == block.header,
        block@.txdata.len() == block.txdata@.len(),
        ({
            let (held, seen) = (block.txdata@[t], block@.txdata[t]);
            &&& seen.version == held.version
            &&& seen.lock_time == held.lock_time
            &&& seen.input.len() == held.input@.len()
            &&& seen.input[i].previous_output == held.input@[i].previous_output
            &&& seen.input[i].script_sig == held.input@[i].script_sig@
            &&& seen.input[i].sequence == held.input@[i].sequence
            &&& seen.input[i].witness.len() == held.input@[i].witness@.len()
            &&& forall|w: int|
                0 <= w < held.input@[i].witness@.len() ==> #[trigger] seen.input[i].witness[w]
                    == held.input@[i].witness@[w]@
            &&& seen.output.len() == held.output@.len()
            &&& seen.output[o].value == held.output@[o].value
            &&& seen.output[o].script_pubkey == held.output@[o].script_pubkey@
        }),
{
}

} // verus!
