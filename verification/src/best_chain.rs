//! The chain with the most work, and the bytes that it is stored as.

use vstd::prelude::*;

use bitcoin::consensus::encode;
use bitcoin::consensus::{Decodable, Encodable};
use bitcoin::hashes;

use crate::encoding::{compact_size, law_bytes_by_weight, le_bytes, le_value};
use crate::encoding::{lemma_compact_size_round_trip, lemma_le_round_trip, lemma_pow256_values};
use crate::encoding::{parse_compact_size, pow256, read_u32, write_u32, DecodeError};
use crate::hash::{hash_bytes, hash_from, hashes_from, lemma_hash_bytes, lemma_hash_from};
use crate::hash::{lemma_hashes_from, lemma_zero_hash, zero_hash, BlockHash, Hash256};

verus! {

/// The chain that is believed to have the most work.
#[derive(Debug)]
pub struct BestChain {
    /// The last block of the chain.
    pub best_block: BlockHash,
    /// How many blocks are piled on the first one.
    pub depth: u32,
    /// The last block that was validated.
    pub validation_index: BlockHash,
    /// Where a scan of blocks that were validated before stands.
    pub rescan_index: Option<BlockHash>,
    /// The last blocks of other chains, in case one of them gets ahead.
    pub alternative_tips: Vec<BlockHash>,
}

#[verifier::ext_equal]
pub struct BestChainView {
    pub best_block: BlockHash,
    pub depth: u32,
    pub validation_index: BlockHash,
    pub rescan_index: Option<BlockHash>,
    pub alternative_tips: Seq<BlockHash>,
}

impl View for BestChain {
    type V = BestChainView;

    open spec fn view(&self) -> BestChainView {
        BestChainView {
            best_block: self.best_block,
            depth: self.depth,
            validation_index: self.validation_index,
            rescan_index: self.rescan_index,
            alternative_tips: self.alternative_tips@,
        }
    }
}

impl BestChainView {
    /// The chain that ends in `block_hash` at `height`.
    pub open spec fn with_block(self, block_hash: BlockHash, height: u32) -> BestChainView {
        BestChainView { best_block: block_hash, depth: height, ..self }
    }

    /// The chain that is validated up to `block_hash`.
    pub open spec fn validated_to(self, block_hash: BlockHash) -> BestChainView {
        BestChainView { validation_index: block_hash, ..self }
    }

    /// The bytes of the chain: the last block, the height, the last validated block, the position
    /// of the scan or zeros, and the other tips behind their number.
    pub open spec fn encoded(self) -> Seq<u8> {
        self.best_block@ + le_bytes(self.depth as nat, 4) + self.validation_index@ + (
        match self.rescan_index {
            Some(hash) => hash@,
            None => zero_hash()@,
        }) + encoded_hashes(self.alternative_tips)
    }
}

impl BestChain {
    /// Takes `block_hash`, at `height`, for the last block.
    pub fn new_block(&mut self, block_hash: BlockHash, height: u32)
        ensures
            final(self)@ == old(self)@.with_block(block_hash, height),
    {
        self.best_block = block_hash;
        self.depth = height;
    }

    /// Takes `block_hash` for the last block that was validated.
    pub fn valid_block(&mut self, block_hash: BlockHash)
        ensures
            final(self)@ == old(self)@.validated_to(block_hash),
    {
        self.validation_index = block_hash;
    }
}

/// A list of hashes: their number, then their bytes.
pub open spec fn encoded_hashes(hashes: Seq<Hash256>) -> Seq<u8> {
    compact_size(hashes.len()) + hash_bytes(hashes)
}

/// `<Vec<bitcoin::BlockHash> as bitcoin::consensus::Encodable>::consensus_encode` into memory:
/// the length prefix and then the bytes of each hash.
#[verifier::external_body]
fn encode_hashes(hashes: &Vec<Hash256>) -> (bytes: Vec<u8>)
    ensures
        bytes@ == encoded_hashes(hashes@),
{
    let hashes: Vec<bitcoin::BlockHash> = hashes.iter().map(
        |hash| hashes::Hash::from_inner(hash.0),
    ).collect();
    let mut bytes = Vec::new();
    hashes.consensus_encode(&mut bytes).expect("a vector takes all bytes");
    bytes
}

/// The most bytes that are read for one list.
pub open spec fn list_limit() -> nat {
    4_000_000
}

/// The first bytes of `bytes`, as many as are read for one list.
pub open spec fn limited(bytes: Seq<u8>) -> Seq<u8> {
    if bytes.len() <= list_limit() {
        bytes
    } else {
        bytes.take(list_limit() as int)
    }
}

/// The list of hashes at the start of `bytes`, and how many bytes it takes.
pub open spec fn parse_hashes(bytes: Seq<u8>) -> Result<(Seq<Hash256>, nat), DecodeError> {
    let bytes = limited(bytes);
    match parse_compact_size(bytes) {
        Err(error) => Err(error),
        Ok((count, width)) => if bytes.len() < width + 32 * count {
            Err(DecodeError::UnexpectedEnd)
        } else {
            Ok(
                (
                    hashes_from(bytes.subrange(width as int, (width + 32 * count) as int)),
                    width + 32 * count,
                ),
            )
        },
    }
}

/// `<Vec<bitcoin::BlockHash> as bitcoin::consensus::Decodable>::consensus_decode` on a slice: the
/// hashes of a list and how many bytes were read. The list is read from the first 4000000 bytes
/// alone. Memory ends but does not fail otherwise, and hashes have no other form than their
/// bytes, so that a decoding fails at the end of the bytes or on the length prefix.
#[verifier::external_body]
fn decode_hashes(bytes: &[u8]) -> (decoded: Result<(Vec<Hash256>, usize), DecodeError>)
    ensures
        (match decoded {
            Ok((hashes, used)) => Ok((hashes@, used as nat)),
            Err(error) => Err(error),
        }) == parse_hashes(bytes@),
{
    let mut rest = bytes;
    match Vec::<bitcoin::BlockHash>::consensus_decode(&mut rest) {
        Ok(hashes) => Ok((
            hashes.into_iter().map(|hash| Hash256(hashes::Hash::into_inner(hash))).collect(),
            bytes.len() - rest.len(),
        )),
        Err(encode::Error::NonMinimalVarInt) => Err(DecodeError::NonMinimalVarInt),
        Err(_) => Err(DecodeError::UnexpectedEnd),
    }
}

/// The chain at the start of `bytes`, and how many bytes it takes.
pub open spec fn parse_chain(bytes: Seq<u8>) -> Result<(BestChainView, nat), DecodeError> {
    if bytes.len() < 100 {
        Err(DecodeError::UnexpectedEnd)
    } else {
        match parse_hashes(bytes.skip(100)) {
            Err(error) => Err(error),
            Ok((tips, used)) => {
                let rescan = hash_from(bytes.subrange(68, 100));
                Ok(
                    (
                        BestChainView {
                            best_block: hash_from(bytes.subrange(0, 32)),
                            depth: le_value(bytes.subrange(32, 36)) as u32,
                            validation_index: hash_from(bytes.subrange(36, 68)),
                            rescan_index: if rescan.zero() {
                                None
                            } else {
                                Some(rescan)
                            },
                            alternative_tips: tips,
                        },
                        100 + used,
                    ),
                )
            },
        }
    }
}

impl BestChain {
    /// Appends the bytes of the chain and returns how many they are.
    pub fn consensus_encode(&self, writer: &mut Vec<u8>) -> (length: usize)
        ensures
            final(writer)@ == old(writer)@ + self@.encoded(),
            length == self@.encoded().len(),
    {
        let mut bytes: Vec<u8> = Vec::new();
        self.best_block.write(&mut bytes);
        write_u32(self.depth, &mut bytes);
        self.validation_index.write(&mut bytes);
        match self.rescan_index {
            Some(hash) => hash.write(&mut bytes),
            None => BlockHash::all_zeros().write(&mut bytes),
        }
        let mut tips = encode_hashes(&self.alternative_tips);
        bytes.append(&mut tips);
        assert(bytes@ =~= self@.encoded());
        let length: usize = bytes.len();
        writer.append(&mut bytes);
        length
    }

    /// Reads a chain from the start of `bytes`. Also returns how many bytes it took.
    pub fn consensus_decode(bytes: &[u8]) -> (decoded: Result<(BestChain, usize), DecodeError>)
        ensures
            (match decoded {
                Ok((chain, used)) => Ok((chain@, used as nat)),
                Err(error) => Err(error),
            }) == parse_chain(bytes@),
    {
        let length: usize = bytes.len();
        if length < 100 {
            return Err(DecodeError::UnexpectedEnd);
        }
        let best_block = BlockHash::read(bytes, 0);
        let depth: u32 = read_u32(bytes, 32);
        let validation_index = BlockHash::read(bytes, 36);
        let rescan = BlockHash::read(bytes, 68);
        let rescan_index = if rescan.is_zero() {
            None
        } else {
            Some(rescan)
        };
        proof {
            lemma_hash_from(best_block);
            lemma_hash_from(validation_index);
            lemma_hash_from(rescan);
        }
        let rest = vstd::slice::slice_subrange(bytes, 100, length);
        assert(rest@ =~= bytes@.skip(100));
        match decode_hashes(rest) {
            Err(error) => Err(error),
            Ok((alternative_tips, used)) => {
                proof {
                    lemma_used_within(rest@);
                }
                let chain = BestChain {
                    best_block,
                    depth,
                    validation_index,
                    rescan_index,
                    alternative_tips,
                };
                Ok((chain, 100 + used))
            },
        }
    }
}

/// A list takes no more bytes than there are.
proof fn lemma_used_within(bytes: Seq<u8>)
    ensures
        parse_hashes(bytes) matches Ok((_, used)) ==> used <= bytes.len(),
{
}

/// A list that is not too long to be read reads back, whatever follows it.
pub proof fn law_hashes_round_trip(hashes: Seq<Hash256>, rest: Seq<u8>)
    requires
        encoded_hashes(hashes).len() <= list_limit(),
    ensures
        parse_hashes(encoded_hashes(hashes) + rest) == Ok::<(Seq<Hash256>, nat), DecodeError>(
            (hashes, encoded_hashes(hashes).len()),
        ),
{
    lemma_hash_bytes(hashes);
    lemma_hashes_from(hashes);
    let prefix = compact_size(hashes.len());
    let bytes = limited(encoded_hashes(hashes) + rest);
    let tail = bytes.skip(prefix.len() as int);
    assert(bytes =~= prefix + tail);
    lemma_compact_size_round_trip(hashes.len(), tail);
    assert(bytes.subrange(
        prefix.len() as int,
        (prefix.len() + 32 * hashes.len()) as int,
    ) =~= hash_bytes(hashes));
}

/// A chain reads back from its bytes, whatever follows them, if its list of tips is not too long
/// to be read and no scan stands at the hash of zeros, which is written for "no scan".
pub proof fn law_chain_round_trip(chain: BestChainView, rest: Seq<u8>)
    requires
        encoded_hashes(chain.alternative_tips).len() <= list_limit(),
        chain.rescan_index matches Some(hash) ==> !hash.zero(),
    ensures
        parse_chain(chain.encoded() + rest) == Ok::<(BestChainView, nat), DecodeError>(
            (chain, chain.encoded().len()),
        ),
{
    let bytes = chain.encoded() + rest;
    let rescan = match chain.rescan_index {
        Some(hash) => hash,
        None => zero_hash(),
    };
    lemma_zero_hash(rescan);
    lemma_pow256_values();
    lemma_le_round_trip(chain.depth as nat, 4);
    lemma_hash_from(chain.best_block);
    lemma_hash_from(chain.validation_index);
    lemma_hash_from(rescan);
    law_hashes_round_trip(chain.alternative_tips, rest);
    assert(bytes.subrange(0, 32) =~= chain.best_block@);
    assert(bytes.subrange(32, 36) =~= le_bytes(chain.depth as nat, 4));
    assert(bytes.subrange(36, 68) =~= chain.validation_index@);
    assert(bytes.subrange(68, 100) =~= rescan@);
    assert(bytes.skip(100) =~= encoded_hashes(chain.alternative_tips) + rest);
}

/// The bytes of a chain are, in this order: the last block, its height in four bytes, the last
/// validated block, where the scan stands or 32 zeros, and the list of the other tips.
pub proof fn law_chain_by_byte(chain: BestChainView, k: int, w: nat)
    requires
        0 <= k < 32,
        w < 4,
    ensures
        chain.encoded().len() == 100 + encoded_hashes(chain.alternative_tips).len(),
        chain.encoded()[k] == chain.best_block.0@[k],
        chain.encoded()[32 + w as int] == (chain.depth as nat / pow256(w)) % 256,
        chain.encoded()[36 + k] == chain.validation_index.0@[k],
        chain.encoded()[68 + k] == (match chain.rescan_index {
            Some(hash) => hash.0@[k],
            None => 0,
        }),
        chain.encoded().skip(100) == encoded_hashes(chain.alternative_tips),
{
    law_bytes_by_weight(chain.depth as nat, 4, w);
    lemma_zero_hash(zero_hash());
    assert(chain.encoded().skip(100) =~= encoded_hashes(chain.alternative_tips));
}

/// Bytes that do not decode to a chain are fewer than the hundred before its list of tips, or that
/// list does not decode, which is then the reason.
pub proof fn law_chain_decoding_fails(bytes: Seq<u8>, error: DecodeError)
    requires
        parse_chain(bytes) == Err::<(BestChainView, nat), DecodeError>(error),
    ensures
        ({
            ||| bytes.len() < 100 && error == DecodeError::UnexpectedEnd
            ||| bytes.len() >= 100 && parse_hashes(bytes.skip(100)) == Err::<
                (Seq<Hash256>, nat),
                DecodeError,
            >(error)
        }),
{
}

} // verus!
