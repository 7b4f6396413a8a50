//! The 32-byte hashes that name blocks, transactions and accumulator nodes.

use vstd::prelude::*;

verus! {

/// A 256-bit hash, in the byte order in which it is hashed and stored.
#[derive(Clone, Copy, Debug, Eq)]
pub struct Hash256(pub [u8; 32]);

pub type BlockHash = Hash256;

pub type Txid = Hash256;

impl PartialEq for Hash256 {
    fn eq(&self, other: &Self) -> (same: bool) {
        let mut i: usize = 0;
        while i < 32
            invariant
                i <= 32,
                forall|j: int| 0 <= j < i ==> self.0@[j] == other.0@[j],
            decreases 32 - i,
        {
            if self.0[i] != other.0[i] {
                return false;
            }
            i += 1;
        }
        assert(self.0 =~= other.0);
        true
    }
}

impl vstd::std_specs::cmp::PartialEqSpecImpl for Hash256 {
    open spec fn obeys_eq_spec() -> bool {
        true
    }

    open spec fn eq_spec(&self, other: &Self) -> bool {
        *self == *other
    }
}

impl View for Hash256 {
    type V = Seq<u8>;

    open spec fn view(&self) -> Seq<u8> {
        self.0@
    }
}

impl Hash256 {
    /// Every byte of the hash is zero.
    pub open spec fn zero(self) -> bool {
        forall|i: int| 0 <= i < 32 ==> self.0@[i] == 0
    }

    /// The hash whose bytes are all zero, which stands for "no block" and for an empty node.
    pub fn all_zeros() -> (hash: Hash256)
        ensures
            hash.zero(),
            hash == zero_hash(),
    {
        let hash = Hash256([0; 32]);
        proof {
            lemma_zero_hash(hash);
        }
        hash
    }

    /// Whether every byte is zero.
    pub fn is_zero(&self) -> (answer: bool)
        ensures
            answer == self.zero(),
    {
        let zeros = Hash256::all_zeros();
        proof {
            if self.zero() {
                assert(self.0 =~= zeros.0);
            }
        }
        *self == zeros
    }

    /// Reads the 32 bytes that start at `from`.
    pub fn read(bytes: &[u8], from: usize) -> (hash: Hash256)
        requires
            from + 32 <= bytes@.len(),
        ensures
            hash@ == bytes@.subrange(from as int, from + 32),
    {
        let length: usize = bytes.len();
        let mut inner: [u8; 32] = [0; 32];
        let mut i: usize = 0;
        while i < 32
            invariant
                i <= 32,
                from + 32 <= length == bytes@.len(),
                forall|j: int| 0 <= j < i ==> inner@[j] == bytes@[from + j],
            decreases 32 - i,
        {
            inner[i] = bytes[from + i];
            i += 1;
        }
        assert(inner@ =~= bytes@.subrange(from as int, from + 32));
        Hash256(inner)
    }

    /// Appends the 32 bytes to `out`.
    pub fn write(&self, out: &mut Vec<u8>)
        ensures
            final(out)@ == old(out)@ + self@,
    {
        let mut i: usize = 0;
        while i < 32
            invariant
                i <= 32,
                out@ == old(out)@ + self@.take(i as int),
            decreases 32 - i,
        {
            out.push(self.0[i]);
            i += 1;
            assert(self@.take(i as int) =~= self@.take(i - 1).push(self@[i - 1]));
        }
        assert(self@.take(32) =~= self@);
    }
}

/// Two hashes with the same bytes are one hash.
pub proof fn lemma_same_bytes_same_hash(a: Hash256, b: Hash256)
    requires
        a@ == b@,
    ensures
        a == b,
{
    assert(forall|i: int| 0 <= i < 32 ==> a.0@[i] == b.0@[i]);
    assert(a.0 =~= b.0);
}

/// The one hash whose bytes are all zero.
pub open spec fn zero_hash() -> Hash256 {
    Hash256(vstd::array::spec_array_fill_for_copy_type::<u8, 32>(0))
}

/// Only that hash has nothing but zero bytes.
pub proof fn lemma_zero_hash(hash: Hash256)
    ensures
        hash.zero() <==> hash == zero_hash(),
{
    assert(zero_hash().zero());
    if hash.zero() {
        assert(hash.0 =~= zero_hash().0);
    }
}

/// The hash whose bytes are `bytes`.
pub open spec fn hash_from(bytes: Seq<u8>) -> Hash256 {
    choose|hash: Hash256| hash@ == bytes
}

/// A hash is the hash of its own bytes.
pub proof fn lemma_hash_from(hash: Hash256)
    ensures
        hash_from(hash@) == hash,
{
    lemma_same_bytes_same_hash(hash_from(hash@), hash);
}

/// The hashes in `bytes`, 32 bytes each. Bytes that do not fill a hash are left over.
pub open spec fn hashes_from(bytes: Seq<u8>) -> Seq<Hash256> {
    Seq::new(bytes.len() / 32, |i: int| hash_from(bytes.subrange(32 * i, 32 * i + 32)))
}

/// Hashes read back from their bytes.
pub proof fn lemma_hashes_from(hashes: Seq<Hash256>)
    ensures
        hashes_from(hash_bytes(hashes)) == hashes,
{
    lemma_hash_bytes(hashes);
    assert forall|i: int| 0 <= i < hashes.len() implies #[trigger] hashes_from(
        hash_bytes(hashes),
    )[i] == hashes[i] by {
        lemma_hash_from(hashes[i]);
    }
    assert(hashes_from(hash_bytes(hashes)) =~= hashes);
}

/// Reads hashes until fewer than 32 bytes are left, from the byte at `from` on.
pub fn read_hashes(bytes: &[u8], from: usize) -> (hashes: Vec<Hash256>)
    requires
        from <= bytes@.len(),
    ensures
        hashes@ == hashes_from(bytes@.skip(from as int)),
{
    let length: usize = bytes.len();
    let mut hashes: Vec<Hash256> = Vec::new();
    let mut at: usize = from;
    let ghost tail = bytes@.skip(from as int);
    while length - at >= 32
        invariant
            from <= at <= length == bytes@.len(),
            at == from + 32 * hashes@.len(),
            tail == bytes@.skip(from as int),
            hashes@ == hashes_from(tail).take(hashes@.len() as int),
            hashes@.len() <= hashes_from(tail).len(),
        decreases length - at,
    {
        let hash = Hash256::read(bytes, at);
        let ghost count = hashes@.len() as int;
        proof {
            assert(bytes@.subrange(at as int, at + 32) =~= tail.subrange(
                32 * count,
                32 * count + 32,
            ));
            lemma_hash_from(hash);
        }
        hashes.push(hash);
        at += 32;
        assert(hashes@ =~= hashes_from(tail).take(count + 1));
    }
    assert(hashes@ =~= hashes_from(tail));
    hashes
}

/// The bytes of `hashes`, one after the other.
pub open spec fn hash_bytes(hashes: Seq<Hash256>) -> Seq<u8>
    decreases hashes.len(),
{
    if hashes.len() == 0 {
        seq![]
    } else {
        hash_bytes(hashes.drop_last()) + hashes.last()@
    }
}

/// The `i`-th group of 32 bytes is the `i`-th hash.
pub proof fn lemma_hash_bytes(hashes: Seq<Hash256>)
    ensures
        hash_bytes(hashes).len() == 32 * hashes.len(),
        forall|i: int|
            #![trigger hashes[i]]
            0 <= i < hashes.len() ==> hash_bytes(hashes).subrange(32 * i, 32 * i + 32)
                == hashes[i]@,
    decreases hashes.len(),
{
    if hashes.len() > 0 {
        let front = hashes.drop_last();
        lemma_hash_bytes(front);
        assert forall|i: int| #![trigger hashes[i]] 0 <= i < hashes.len() implies hash_bytes(
            hashes,
        ).subrange(32 * i, 32 * i + 32) == hashes[i]@ by {
            if i < front.len() {
                assert(front[i] == hashes[i]);
                assert(hash_bytes(hashes).subrange(32 * i, 32 * i + 32) =~= hash_bytes(
                    front,
                ).subrange(32 * i, 32 * i + 32));
            } else {
                assert(hash_bytes(hashes).subrange(32 * i, 32 * i + 32) =~= hashes.last()@);
            }
        }
    }
}

/// Appends the bytes of every hash, in order.
pub fn write_hashes(hashes: &Vec<Hash256>, out: &mut Vec<u8>)
    ensures
        final(out)@ == old(out)@ + hash_bytes(hashes@),
{
    let mut i: usize = 0;
    assert(hashes@.take(0) =~= Seq::<Hash256>::empty());
    while i < hashes.len()
        invariant
            i <= hashes@.len(),
            out@ == old(out)@ + hash_bytes(hashes@.take(i as int)),
        decreases hashes@.len() - i,
    {
        hashes[i].write(out);
        i += 1;
        proof {
            assert(hashes@.take(i as int).drop_last() =~= hashes@.take(i - 1));
            assert(hashes@.take(i as int).last() == hashes@[i - 1]);
        }
    }
    assert(hashes@.take(i as int) =~= hashes@);
}

/// Hashes are written one after the other, each byte in its place.
pub proof fn law_hashes_by_byte(hashes: Seq<Hash256>, i: int, j: int)
    requires
        0 <= i < hashes.len(),
        0 <= j < 32,
    ensures
        hash_bytes(hashes).len() == 32 * hashes.len(),
        hash_bytes(hashes)[32 * i + j] == hashes[i].0@[j],
{
    lemma_hash_bytes(hashes);
    assert(hash_bytes(hashes).subrange(32 * i, 32 * i + 32)[j] == hashes[i]@[j]);
}

/// Hashes read back from their bytes, and bytes behind them that are too few for one more do not
/// matter.
pub proof fn law_hashes_read_back(hashes: Seq<Hash256>, rest: Seq<u8>)
    requires
        rest.len() < 32,
    ensures
        hashes_from(hash_bytes(hashes) + rest) == hashes,
{
    let bytes = hash_bytes(hashes) + rest;
    lemma_hash_bytes(hashes);
    lemma_hashes_from(hashes);
    assert(bytes.len() / 32 == hashes.len());
    assert forall|i: int| 0 <= i < hashes.len() implies #[trigger] hashes_from(bytes)[i]
        == hashes[i] by {
        assert(bytes.subrange(32 * i, 32 * i + 32) =~= hash_bytes(hashes).subrange(
            32 * i,
            32 * i + 32,
        ));
        assert(hashes_from(hash_bytes(hashes))[i] == hashes[i]);
    }
    assert(hashes_from(bytes) =~= hashes);
}

} // verus!
