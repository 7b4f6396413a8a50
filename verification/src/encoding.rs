//! Little-endian integers and the length prefix of Bitcoin's consensus encoding.

use vstd::prelude::*;

verus! {

/// The `count` bytes of `value`, least significant first.
pub open spec fn le_bytes(value: nat, count: nat) -> Seq<u8>
    decreases count,
{
    if count == 0 {
        seq![]
    } else {
        seq![(value % 256) as u8] + le_bytes(value / 256, (count - 1) as nat)
    }
}

/// The number whose bytes are `bytes`, least significant first.
pub open spec fn le_value(bytes: Seq<u8>) -> nat
    decreases bytes.len(),
{
    if bytes.len() == 0 {
        0
    } else {
        bytes[0] as nat + 256 * le_value(bytes.skip(1))
    }
}

/// `256` to the power of `count`.
pub open spec fn pow256(count: nat) -> nat
    decreases count,
{
    if count == 0 {
        1
    } else {
        256 * pow256((count - 1) as nat)
    }
}

pub proof fn lemma_pow256_values()
    ensures
        pow256(0) == 1,
        pow256(1) == 0x100,
        pow256(2) == 0x1_0000,
        pow256(3) == 0x100_0000,
        pow256(4) == 0x1_0000_0000,
        pow256(8) == 0x1_0000_0000_0000_0000,
{
    reveal_with_fuel(pow256, 9);
}

/// Writing a number that fits and reading it back gives the number.
pub proof fn lemma_le_round_trip(value: nat, count: nat)
    requires
        value < pow256(count),
    ensures
        le_bytes(value, count).len() == count,
        le_value(le_bytes(value, count)) == value,
    decreases count,
{
    if count > 0 {
        lemma_le_round_trip(value / 256, (count - 1) as nat);
        let bytes = le_bytes(value, count);
        assert(bytes.skip(1) =~= le_bytes(value / 256, (count - 1) as nat));
    }
}

/// Reading bytes and writing the number again gives the bytes.
pub proof fn lemma_le_bytes_of_value(bytes: Seq<u8>)
    ensures
        le_value(bytes) < pow256(bytes.len()),
        le_bytes(le_value(bytes), bytes.len()) == bytes,
    decreases bytes.len(),
{
    if bytes.len() > 0 {
        let rest = bytes.skip(1);
        lemma_le_bytes_of_value(rest);
        let value = le_value(bytes);
        assert(value % 256 == bytes[0] as nat);
        assert(value / 256 == le_value(rest));
        assert(le_bytes(value, bytes.len()) =~= seq![bytes[0]] + rest);
        assert(seq![bytes[0]] + rest =~= bytes);
    } else {
        assert(le_bytes(0, 0) =~= bytes);
    }
}

/// Appends the `count` low bytes of `value`, least significant first.
fn write_le(value: u64, count: usize, out: &mut Vec<u8>)
    requires
        count <= 8,
    ensures
        final(out)@ == old(out)@ + le_bytes(value as nat, count as nat),
{
    let mut rest: u64 = value;
    let mut i: usize = 0;
    while i < count
        invariant
            i <= count,
            old(out)@ + le_bytes(value as nat, count as nat) == out@ + le_bytes(
                rest as nat,
                (count - i) as nat,
            ),
        decreases count - i,
    {
        let low: u8 = (rest % 256) as u8;
        let ghost before = out@;
        let ghost left = le_bytes(rest as nat, (count - i) as nat);
        out.push(low);
        rest = rest / 256;
        i += 1;
        assert(before + left =~= out@ + le_bytes(rest as nat, (count - i) as nat));
    }
    assert(out@ + le_bytes(rest as nat, 0) =~= out@);
}

/// Appends the four bytes of `value`.
pub fn write_u32(value: u32, out: &mut Vec<u8>)
    ensures
        final(out)@ == old(out)@ + le_bytes(value as nat, 4),
{
    write_le(value as u64, 4, out)
}

/// Appends the eight bytes of `value`.
pub fn write_u64(value: u64, out: &mut Vec<u8>)
    ensures
        final(out)@ == old(out)@ + le_bytes(value as nat, 8),
{
    write_le(value, 8, out)
}

/// The number in the `count` bytes that start at `from`.
fn read_le(bytes: &[u8], from: usize, count: usize) -> (value: u64)
    requires
        count <= 8,
        from + count <= bytes@.len(),
    ensures
        value as nat == le_value(bytes@.subrange(from as int, from + count)),
        value < pow256(count as nat),
{
    let length: usize = bytes.len();
    let mut value: u64 = 0;
    let mut i: usize = count;
    proof {
        lemma_pow256_values();
    }
    assert(bytes@.subrange(from + i, from + count) =~= Seq::<u8>::empty());
    while i > 0
        invariant
            i <= count <= 8,
            from + count <= length == bytes@.len(),
            value as nat == le_value(bytes@.subrange(from + i, from + count)),
        decreases i,
    {
        i -= 1;
        let ghost tail = bytes@.subrange(from + i, from + count);
        proof {
            assert(tail.skip(1) =~= bytes@.subrange(from + i + 1, from + count));
            lemma_le_bytes_of_value(tail);
            lemma_pow256_at_most(tail.len(), 8);
            lemma_pow256_values();
        }
        value = bytes[from + i] as u64 + 256 * value;
    }
    proof {
        lemma_le_bytes_of_value(bytes@.subrange(from as int, from + count));
    }
    value
}

pub proof fn lemma_pow256_at_most(a: nat, b: nat)
    requires
        a <= b,
    ensures
        1 <= pow256(a) <= pow256(b),
    decreases b,
{
    if a < b {
        lemma_pow256_at_most(a, (b - 1) as nat);
    } else if a > 0 {
        lemma_pow256_at_most((a - 1) as nat, (b - 1) as nat);
    }
}

/// The `u32` in the four bytes that start at `from`.
pub fn read_u32(bytes: &[u8], from: usize) -> (value: u32)
    requires
        from + 4 <= bytes@.len(),
    ensures
        value as nat == le_value(bytes@.subrange(from as int, from + 4)),
{
    proof {
        lemma_pow256_values();
    }
    read_le(bytes, from, 4) as u32
}

/// The `u64` in the eight bytes that start at `from`.
pub fn read_u64(bytes: &[u8], from: usize) -> (value: u64)
    requires
        from + 8 <= bytes@.len(),
    ensures
        value as nat == le_value(bytes@.subrange(from as int, from + 8)),
{
    read_le(bytes, from, 8)
}

/// The length prefix of a list of `count` items: one byte, or a marker and two, four or eight
/// bytes, whichever is shortest.
pub open spec fn compact_size(count: nat) -> Seq<u8> {
    if count < 0xfd {
        seq![count as u8]
    } else if count <= 0xffff {
        seq![0xfdu8] + le_bytes(count, 2)
    } else if count <= 0xffff_ffff {
        seq![0xfeu8] + le_bytes(count, 4)
    } else {
        seq![0xffu8] + le_bytes(count, 8)
    }
}

/// Why bytes do not decode.
#[derive(Clone, Copy, Debug, PartialEq, Eq, Structural)]
pub enum DecodeError {
    /// The bytes stop before the value does.
    UnexpectedEnd,
    /// A length was written in more bytes than it needs.
    NonMinimalVarInt,
}

/// What the length prefix at the start of `bytes` says, and how many bytes it takes.
pub open spec fn parse_compact_size(bytes: Seq<u8>) -> Result<(nat, nat), DecodeError> {
    if bytes.len() == 0 {
        Err(DecodeError::UnexpectedEnd)
    } else if bytes[0] < 0xfd {
        Ok((bytes[0] as nat, 1nat))
    } else {
        let (width, least) = if bytes[0] == 0xfd {
            (2nat, 0xfdnat)
        } else if bytes[0] == 0xfe {
            (4nat, 0x1_0000nat)
        } else {
            (8nat, 0x1_0000_0000nat)
        };
        if bytes.len() < 1 + width {
            Err(DecodeError::UnexpectedEnd)
        } else if le_value(bytes.subrange(1, (1 + width) as int)) < least {
            Err(DecodeError::NonMinimalVarInt)
        } else {
            Ok((le_value(bytes.subrange(1, (1 + width) as int)), 1 + width))
        }
    }
}

/// A length prefix reads back as the length, whatever follows it.
pub proof fn lemma_compact_size_round_trip(count: nat, rest: Seq<u8>)
    requires
        count <= u64::MAX,
    ensures
        1 <= compact_size(count).len() <= 9,
        parse_compact_size(compact_size(count) + rest) == Ok::<(nat, nat), DecodeError>(
            (count, compact_size(count).len()),
        ),
{
    lemma_pow256_values();
    let bytes = compact_size(count) + rest;
    if count >= 0xfd {
        let width: nat = if count <= 0xffff {
            2
        } else if count <= 0xffff_ffff {
            4
        } else {
            8
        };
        lemma_le_round_trip(count, width);
        assert(bytes.subrange(1, (1 + width) as int) =~= le_bytes(count, width));
    }
}

/// Byte `k` of a number counts how often 256 to the power of `k` goes into it, but for what the
/// bytes behind it count.
pub proof fn law_bytes_by_weight(value: nat, count: nat, k: nat)
    requires
        k < count,
    ensures
        le_bytes(value, count).len() == count,
        le_bytes(value, count)[k as int] == (value / pow256(k)) % 256,
    decreases count,
{
    lemma_le_length(value, count);
    if k == 0 {
        assert(pow256(0) == 1);
        assert(value / 1 == value);
    } else {
        let less = (k - 1) as nat;
        law_bytes_by_weight(value / 256, (count - 1) as nat, less);
        lemma_pow256_at_most(0, less);
        vstd::arithmetic::div_mod::lemma_div_denominator(value as int, 256, pow256(less) as int);
    }
}

proof fn lemma_le_length(value: nat, count: nat)
    ensures
        le_bytes(value, count).len() == count,
    decreases count,
{
    if count > 0 {
        lemma_le_length(value / 256, (count - 1) as nat);
    }
}

/// The bytes of a number say which number it is, the later ones with more weight.
pub proof fn law_value_by_weight(first: u8, rest: Seq<u8>)
    ensures
        le_value(seq![first] + rest) == first + 256 * le_value(rest),
        le_value(Seq::<u8>::empty()) == 0,
{
    assert((seq![first] + rest).skip(1) =~= rest);
}

} // verus!
