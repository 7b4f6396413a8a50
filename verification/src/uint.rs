//! 256-bit unsigned integers and their compact form, as proof-of-work targets use them.

use vstd::prelude::*;

use crate::encoding::{lemma_pow256_at_most, lemma_pow256_values, pow256};

verus! {

/// `2` to the power of `64`.
pub open spec fn limb_base() -> nat {
    0x1_0000_0000_0000_0000
}

/// `2` to the power of `256`.
pub open spec fn two_256() -> nat {
    pow256(32)
}

/// An unsigned integer of 256 bits, in four limbs, the least significant first.
#[derive(Clone, Copy, Debug)]
pub struct Uint256(pub [u64; 4]);

impl View for Uint256 {
    type V = nat;

    open spec fn view(&self) -> nat {
        self.0@[0] as nat + limb_base() * (self.0@[1] as nat + limb_base() * (self.0@[2] as nat
            + limb_base() * self.0@[3] as nat))
    }
}

/// How many bytes `value` needs.
pub open spec fn byte_len(value: nat) -> nat
    decreases value,
{
    if value == 0 {
        0
    } else {
        1 + byte_len(value / 256)
    }
}

/// The number that the compact form `bits` stands for: the high byte counts the bytes of the
/// number, the other three are its leading digits. A leading digit with its high bit on would be
/// negative and counts as zero.
pub open spec fn compact_value(bits: u32) -> nat {
    let size: nat = (bits / 0x100_0000) as nat;
    let digits: nat = (bits % 0x100_0000) as nat;
    let mantissa: nat = if size <= 3 {
        digits / pow256((3 - size) as nat)
    } else {
        digits
    };
    if mantissa > 0x7f_ffff {
        0
    } else if size <= 3 {
        mantissa
    } else {
        (mantissa * pow256((size - 3) as nat)) % two_256()
    }
}

/// The compact form of `value`: its length in bytes and its three leading bytes, one byte further
/// up where the leading one would look negative.
pub open spec fn compact_bits(value: nat) -> nat {
    let size = byte_len(value);
    let digits: nat = if size <= 3 {
        value * pow256((3 - size) as nat)
    } else {
        value / pow256((size - 3) as nat)
    };
    if digits >= 0x80_0000 {
        digits / 256 + (size + 1) * 0x100_0000
    } else {
        digits + size * 0x100_0000
    }
}

impl Uint256 {
    /// The integer `value`.
    pub fn from_u64(value: u64) -> (number: Uint256)
        ensures
            number@ == value,
    {
        Uint256([value, 0, 0, 0])
    }

    /// Whether `self` is the larger number.
    pub fn exceeds(&self, other: &Uint256) -> (answer: bool)
        ensures
            answer == (self@ > other@),
    {
        if self.0[3] != other.0[3] {
            self.0[3] > other.0[3]
        } else if self.0[2] != other.0[2] {
            self.0[2] > other.0[2]
        } else if self.0[1] != other.0[1] {
            self.0[1] > other.0[1]
        } else {
            self.0[0] > other.0[0]
        }
    }

    /// `bitcoin::util::uint::Uint256::mul_u32`: the product, with what does not fit in 256 bits
    /// cut off.
    #[verifier::external_body]
    pub(crate) fn mul_u32(&self, factor: u32) -> (product: Uint256)
        ensures
            product@ == (self@ * factor as nat) % two_256(),
    {
        Uint256(bitcoin::util::uint::Uint256(self.0).mul_u32(factor).0)
    }

    /// Division of two `bitcoin::util::uint::Uint256`: the quotient, rounded down. It panics on a
    /// zero divisor.
    #[verifier::external_body]
    pub(crate) fn quotient(&self, divisor: &Uint256) -> (quotient: Uint256)
        requires
            divisor@ > 0,
        ensures
            quotient@ == self@ / divisor@,
    {
        let dividend = bitcoin::util::uint::Uint256(self.0);
        Uint256((dividend / bitcoin::util::uint::Uint256(divisor.0)).0)
    }

    /// `bitcoin::BlockHeader::u256_from_compact_target`: the number that a compact form stands
    /// for.
    #[verifier::external_body]
    pub(crate) fn from_compact(bits: u32) -> (number: Uint256)
        ensures
            number@ == compact_value(bits),
    {
        Uint256(bitcoin::BlockHeader::u256_from_compact_target(bits).0)
    }

    /// `bitcoin::BlockHeader::compact_target_from_u256`: the compact form of a number.
    #[verifier::external_body]
    pub(crate) fn to_compact(&self) -> (bits: u32)
        ensures
            bits as nat == compact_bits(self@),
    {
        bitcoin::BlockHeader::compact_target_from_u256(&bitcoin::util::uint::Uint256(self.0))
    }
}

/// A number needs one byte more for each time that it is multiplied by 256.
proof fn lemma_byte_len_shifted(value: nat, count: nat)
    requires
        value > 0,
    ensures
        value * pow256(count) > 0,
        byte_len(value * pow256(count)) == byte_len(value) + count,
    decreases count,
{
    if count > 0 {
        let less = pow256((count - 1) as nat);
        lemma_byte_len_shifted(value, (count - 1) as nat);
        assert(value * (256 * less) == 256 * (value * less)) by (nonlinear_arith);
        let whole = value * pow256(count);
        assert(whole == 256 * (value * less));
        assert(whole / 256 == value * less);
        assert(byte_len(whole) == 1 + byte_len(whole / 256));
    } else {
        assert(pow256(0) == 1);
        assert(value * 1 == value);
    }
}

proof fn lemma_pow256_sum(a: nat, b: nat)
    ensures
        pow256(a + b) == pow256(a) * pow256(b),
    decreases a,
{
    if a > 0 {
        lemma_pow256_sum((a - 1) as nat, b);
        let less = pow256((a - 1) as nat);
        assert(pow256(a + b) == 256 * pow256((a - 1 + b) as nat));
        assert((256 * less) * pow256(b) == 256 * (less * pow256(b))) by (nonlinear_arith);
    } else {
        assert(pow256(0) == 1);
        assert(1 * pow256(b) == pow256(b));
    }
}

/// A target in the compact form that is written for it keeps that form: its leading digit does not
/// look negative, it could not be written with fewer bytes, and it fits in 256 bits.
pub proof fn law_compact_round_trip(bits: u32)
    requires
        3 <= bits / 0x100_0000 <= 32,
        0x8000 <= bits % 0x100_0000 <= 0x7f_ffff,
    ensures
        compact_bits(compact_value(bits)) == bits,
{
    let size: nat = (bits / 0x100_0000) as nat;
    let digits: nat = (bits % 0x100_0000) as nat;
    let above: nat = (size - 3) as nat;
    let value = digits * pow256(above);
    lemma_pow256_values();
    assert(digits / pow256(0) == digits);
    assert(value < two_256()) by {
        lemma_pow256_sum(3, above);
        lemma_pow256_at_most((3 + above) as nat, 32);
        lemma_pow256_at_most(0, above);
        assert(digits * pow256(above) < 0x100_0000 * pow256(above)) by (nonlinear_arith)
            requires
                digits < 0x100_0000,
                pow256(above) >= 1,
        ;
    }
    assert(compact_value(bits) == value) by {
        vstd::arithmetic::div_mod::lemma_small_mod(value, two_256());
        assert(digits * pow256(0) == digits);
    }
    assert(byte_len(digits) == if digits >= 0x1_0000 {
        3nat
    } else {
        2nat
    }) by {
        reveal_with_fuel(byte_len, 4);
    }
    lemma_byte_len_shifted(digits, above);
    let length = byte_len(value);
    if digits >= 0x1_0000 {
        assert(length == size);
        if above > 0 {
            lemma_pow256_at_most(0, above);
            vstd::arithmetic::div_mod::lemma_div_by_multiple(digits as int, pow256(above) as int);
        } else {
            assert(value * pow256(0) == value);
        }
    } else if above == 0 {
        assert(value == digits && length == 2);
        assert(value * pow256(1) == value * 256);
    } else {
        let below: nat = (above - 1) as nat;
        assert(length == size - 1);
        lemma_pow256_at_most(0, below);
        assert(digits * (256 * pow256(below)) == (digits * 256) * pow256(below))
            by (nonlinear_arith);
        if below > 0 {
            vstd::arithmetic::div_mod::lemma_div_by_multiple(
                (digits * 256) as int,
                pow256(below) as int,
            );
        } else {
            assert(value * pow256(0) == value);
            assert((digits * 256) * pow256(0) == digits * 256);
        }
    }
}

/// How many trailing bytes of `value` its compact form leaves out.
pub open spec fn dropped_bytes(value: nat) -> nat
    decreases value,
{
    if value < 0x80_0000 {
        0
    } else {
        1 + dropped_bytes(value / 256)
    }
}

/// What is left of `value` in its compact form.
pub open spec fn truncated(value: nat) -> nat {
    let unit = pow256(dropped_bytes(value));
    (value / unit) * unit
}

proof fn lemma_dropped_bytes(value: nat)
    requires
        value >= 0x80_0000,
    ensures
        dropped_bytes(value) >= 1,
        0x8000 * pow256(dropped_bytes(value)) <= value < 0x80_0000 * pow256(dropped_bytes(value)),
    decreases value,
{
    let rest = value / 256;
    if rest >= 0x80_0000 {
        lemma_dropped_bytes(rest);
    } else {
        assert(dropped_bytes(rest) == 0);
        assert(pow256(0) == 1);
        assert(pow256(1) == 256 * pow256(0));
    }
}

/// A larger number leaves out no fewer bytes.
proof fn lemma_dropped_bytes_grow(a: nat, b: nat)
    requires
        a <= b,
    ensures
        dropped_bytes(a) <= dropped_bytes(b),
    decreases b,
{
    if a >= 0x80_0000 {
        lemma_dropped_bytes_grow(a / 256, b / 256);
    }
}

proof fn lemma_byte_len(value: nat, count: nat)
    requires
        count >= 1,
        pow256((count - 1) as nat) <= value < pow256(count),
    ensures
        byte_len(value) == count,
    decreases count,
{
    lemma_pow256_at_most(0, (count - 1) as nat);
    if count > 1 {
        lemma_byte_len(value / 256, (count - 1) as nat);
    } else {
        assert(pow256(0) == 1);
        assert(pow256(1) == 256 * pow256(0));
        assert(value / 256 == 0);
        assert(byte_len(0) == 0);
    }
}

/// The compact form of a number with more than three bytes to keep.
proof fn lemma_compact_bits_large(value: nat, dropped: nat)
    requires
        dropped >= 1,
        0x8000 * pow256(dropped) <= value < 0x80_0000 * pow256(dropped),
    ensures
        0x8000 <= value / pow256(dropped) < 0x80_0000,
        compact_bits(value) == value / pow256(dropped) + (dropped + 3) * 0x100_0000,
{
    let unit = pow256(dropped);
    let digits = value / unit;
    lemma_pow256_at_most(0, dropped);
    lemma_pow256_values();
    assert(0x8000 <= digits < 0x80_0000) by (nonlinear_arith)
        requires
            0x8000 * unit <= value < 0x80_0000 * unit,
            unit >= 1,
            digits == value / unit,
    ;
    lemma_pow256_sum(1, dropped);
    lemma_pow256_sum(2, dropped);
    lemma_pow256_sum(3, dropped);
    if digits >= 0x1_0000 {
        assert(value >= 0x1_0000 * unit) by (nonlinear_arith)
            requires
                digits >= 0x1_0000,
                unit >= 1,
                digits == value / unit,
        ;
        lemma_byte_len(value, dropped + 3);
    } else {
        assert(value < 0x1_0000 * unit) by (nonlinear_arith)
            requires
                digits < 0x1_0000,
                unit >= 1,
                digits == value / unit,
        ;
        lemma_byte_len(value, dropped + 2);
        let less = pow256((dropped - 1) as nat);
        assert(unit == 256 * less);
        lemma_pow256_at_most(0, (dropped - 1) as nat);
        vstd::arithmetic::div_mod::lemma_div_denominator(value as int, less as int, 256);
        assert(less * 256 == unit);
        assert((value / less) / 256 == digits);
        assert(value / less >= 0x80_0000);
        if dropped == 1 {
            assert(less == 1);
            assert(value * pow256(0) == value);
            assert(value / 1 == value);
        }
    }
}

/// A number that fits in 256 bits reads back from its compact form without its last bytes.
pub proof fn law_compact_form_truncates(value: nat)
    requires
        value < two_256(),
    ensures
        compact_bits(value) <= u32::MAX,
        compact_value(compact_bits(value) as u32) == truncated(value),
        truncated(value) <= value,
{
    let dropped = dropped_bytes(value);
    let unit = pow256(dropped);
    lemma_pow256_at_most(0, dropped);
    lemma_pow256_values();
    assert((value / unit) * unit <= value) by (nonlinear_arith)
        requires
            unit >= 1,
    ;
    if value >= 0x80_0000 {
        lemma_dropped_bytes(value);
        lemma_compact_bits_large(value, dropped);
        let digits = value / unit;
        if dropped > 30 {
            lemma_pow256_at_most(31, dropped);
            lemma_pow256_sum(1, 31);
            assert(false);
        }
        let bits = compact_bits(value) as u32;
        assert(bits / 0x100_0000 == dropped + 3);
        assert(bits % 0x100_0000 == digits);
        vstd::arithmetic::div_mod::lemma_small_mod(digits * unit, two_256());
    } else {
        assert(unit == 1);
        assert((value / unit) * unit == value) by (nonlinear_arith)
            requires
                unit == 1,
        ;
        reveal_with_fuel(byte_len, 4);
        let size = byte_len(value);
        assert(size <= 3);
        assert(value * pow256(0) == value);
        assert(value * pow256(1) == value * 256);
        assert(value * pow256(2) == value * 0x1_0000);
        assert(value * pow256(3) == value * 0x100_0000);
        let bits = compact_bits(value) as u32;
        let mantissa: nat = (bits % 0x100_0000) as nat;
        assert(mantissa / pow256(0) == mantissa);
        assert(mantissa / pow256(1) == mantissa / 256);
        assert(mantissa / pow256(2) == mantissa / 0x1_0000);
        assert(mantissa / pow256(3) == mantissa / 0x100_0000);
    }
}

/// A larger number keeps no less in its compact form.
pub proof fn law_compact_form_keeps_order(a: nat, b: nat)
    requires
        a <= b,
    ensures
        truncated(a) <= truncated(b),
{
    let (small, large) = (dropped_bytes(a), dropped_bytes(b));
    let (unit, wide) = (pow256(small), pow256(large));
    lemma_dropped_bytes_grow(a, b);
    lemma_pow256_at_most(0, small);
    lemma_pow256_at_most(0, large);
    if small == large {
        vstd::arithmetic::div_mod::lemma_div_is_ordered(a as int, b as int, unit as int);
        assert((a / unit) * unit <= (b / unit) * unit) by (nonlinear_arith)
            requires
                a / unit <= b / unit,
                unit >= 1,
        ;
    } else {
        assert(b >= 0x80_0000);
        lemma_dropped_bytes(b);
        assert(truncated(a) <= a) by (nonlinear_arith)
            requires
                truncated(a) == (a / unit) * unit,
                unit >= 1,
        ;
        lemma_compact_bits_large(b, large);
        assert((b / wide) * wide >= 0x8000 * wide) by (nonlinear_arith)
            requires
                b / wide >= 0x8000,
                wide >= 1,
        ;
        lemma_pow256_at_most(small + 1, large);
        assert(pow256(small + 1) == 256 * unit);
        if a >= 0x80_0000 {
            lemma_dropped_bytes(a);
        } else {
            assert(pow256(0) == 1);
        }
        assert(a < 0x80_0000 * unit);
    }
}

} // verus!
