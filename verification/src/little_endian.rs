//! Little-endian numbers: what a run of bytes stands for, and the bytes that
//! stand for a number.
//!
//! The least significant byte comes first.  A signed number is read in two's
//! complement: of a `width`-byte pattern, the upper half of the unsigned
//! values stands for the negative numbers.

use vstd::prelude::*;

verus! {

/// The number of values that `width` bytes can tell apart: `256^width`.
pub open spec fn radix(width: nat) -> nat
    decreases width,
{
    if width == 0 {
        1
    } else {
        256 * radix((width - 1) as nat)
    }
}

/// The unsigned number that `bytes` stand for, least significant byte first.
pub open spec fn le_value(bytes: Seq<u8>) -> nat
    decreases bytes.len(),
{
    if bytes.len() == 0 {
        0
    } else {
        bytes[0] as nat + 256 * le_value(bytes.skip(1))
    }
}

/// The `width` bytes that stand for `value`, least significant byte first.
/// Meaningful where `value < radix(width)`.
pub open spec fn le_bytes(value: nat, width: nat) -> Seq<u8>
    decreases width,
{
    if width == 0 {
        Seq::empty()
    } else {
        seq![(value % 256) as u8] + le_bytes(value / 256, (width - 1) as nat)
    }
}

/// The signed reading of a `width`-byte pattern whose unsigned reading is
/// `value`.
pub open spec fn as_signed(value: nat, width: nat) -> int {
    if 2 * value >= radix(width) {
        value - radix(width)
    } else {
        value as int
    }
}

/// The unsigned reading of the `width`-byte pattern whose signed reading is
/// `value`.
pub open spec fn as_unsigned(value: int, width: nat) -> nat {
    if value < 0 {
        (value + radix(width)) as nat
    } else {
        value as nat
    }
}

/// The signed number that `bytes` stand for.
pub open spec fn le_signed_value(bytes: Seq<u8>) -> int {
    as_signed(le_value(bytes), bytes.len())
}

/// The `width` bytes that stand for the signed number `value`.  Meaningful
/// where `-radix(width) <= 2 * value < radix(width)`.
pub open spec fn le_signed_bytes(value: int, width: nat) -> Seq<u8> {
    le_bytes(as_unsigned(value, width), width)
}

/// The radix of each width that the cursor decodes.
pub proof fn lemma_radix_values()
    ensures
        radix(0) == 1,
        radix(1) == 0x100,
        radix(2) == 0x1_0000,
        radix(4) == 0x1_0000_0000,
        radix(8) == 0x1_0000_0000_0000_0000,
{
    reveal_with_fuel(radix, 9);
}

/// More bytes tell more values apart.
pub proof fn lemma_radix_grows(narrow: nat, wide: nat)
    requires
        narrow <= wide,
    ensures
        0 < radix(narrow) <= radix(wide),
    decreases wide,
{
    if narrow < wide {
        lemma_radix_grows(narrow, (wide - 1) as nat);
    } else if wide > 0 {
        lemma_radix_grows((narrow - 1) as nat, (wide - 1) as nat);
    }
}

/// A single byte stands for itself.
pub proof fn lemma_le_value_single(byte: u8)
    ensures
        le_value(seq![byte]) == byte,
{
    reveal_with_fuel(le_value, 2);
    assert(seq![byte].skip(1).len() == 0);
}

/// Decoding inverts encoding: the bytes that stand for a number stand for
/// that number, for every number that fits the width.
pub proof fn lemma_le_round_trip(value: nat, width: nat)
    requires
        value < radix(width),
    ensures
        le_bytes(value, width).len() == width,
        le_value(le_bytes(value, width)) == value,
    decreases width,
{
    if width > 0 {
        let rest = le_bytes(value / 256, (width - 1) as nat);
        let bytes = le_bytes(value, width);
        lemma_le_round_trip(value / 256, (width - 1) as nat);
        assert(bytes.skip(1) =~= rest);
        assert(bytes[0] == (value % 256) as u8);
    }
}

/// The signed and the unsigned reading of a pattern determine each other,
/// over the whole signed range of the width.
pub proof fn lemma_signed_round_trip(value: int, width: nat)
    requires
        width > 0,
        -radix(width) <= 2 * value < radix(width),
    ensures
        as_unsigned(value, width) < radix(width),
        as_signed(as_unsigned(value, width), width) == value,
{
}

/// Decoding inverts encoding for signed numbers too, over the whole signed
/// range of the width.
pub proof fn lemma_le_signed_round_trip(value: int, width: nat)
    requires
        width > 0,
        -radix(width) <= 2 * value < radix(width),
    ensures
        le_signed_bytes(value, width).len() == width,
        le_signed_value(le_signed_bytes(value, width)) == value,
{
    lemma_signed_round_trip(value, width);
    lemma_le_round_trip(as_unsigned(value, width), width);
}

/// Reads `bytes[start .. start + width]` as an unsigned little-endian number.
pub(crate) fn read_le(bytes: &[u8], start: usize, width: usize) -> (value: u64)
    requires
        width <= 8,
        start + width <= bytes@.len(),
    ensures
        value == le_value(bytes@.subrange(start as int, start + width)),
        value < radix(width as nat),
{
    let mut value: u64 = 0;
    let mut read: usize = 0;
    proof {
        lemma_radix_values();
    }
    while read < width
        invariant
            read <= width <= 8,
            start + width <= bytes@.len(),
            value == le_value(bytes@.subrange(start + width - read, start + width)),
            value < radix(read as nat),
            radix(8) == 0x1_0000_0000_0000_0000,
        decreases width - read,
    {
        assert(bytes@.len() == bytes.len());
        let index = start + (width - read - 1);
        let byte = bytes[index];
        proof {
            let longer = bytes@.subrange(index as int, start + width);
            assert(longer.skip(1) =~= bytes@.subrange(index + 1, start + width));
            assert(longer[0] == byte);
            lemma_radix_grows((read + 1) as nat, 8);
        }
        value = value * 256 + byte as u64;
        read = read + 1;
    }
    value
}

} // verus!
