//! Fixed-width integers as they stand in a stream: byte strings read in little-endian
//! or big-endian order.

use byteorder::{BigEndian, ByteOrder, LittleEndian};
use vstd::prelude::*;

verus! {

/// The number that `bytes` spell with the least significant byte first.
pub open spec fn le_value(bytes: Seq<u8>) -> nat
    decreases bytes.len(),
{
    if bytes.len() == 0 {
        0
    } else {
        bytes[0] as nat + 256 * le_value(bytes.drop_first())
    }
}

/// The number that `bytes` spell with the most significant byte first.
pub open spec fn be_value(bytes: Seq<u8>) -> nat
    decreases bytes.len(),
{
    if bytes.len() == 0 {
        0
    } else {
        256 * be_value(bytes.drop_last()) + bytes.last() as nat
    }
}

/// 256 to the power `n`.
pub open spec fn pow256(n: nat) -> nat
    decreases n,
{
    if n == 0 {
        1
    } else {
        256 * pow256((n - 1) as nat)
    }
}

/// The number that `bytes` spell in two's complement with the least significant byte
/// first: the sign is the high bit of the last byte.
pub open spec fn signed_le_value(bytes: Seq<u8>) -> int {
    if bytes.len() > 0 && bytes.last() >= 0x80 {
        le_value(bytes) - pow256(bytes.len())
    } else {
        le_value(bytes) as int
    }
}

/// A byte string of `n` bytes spells a number below 256 to the power `n`.
pub(crate) proof fn lemma_be_value_bound(bytes: Seq<u8>)
    ensures
        be_value(bytes) < pow256(bytes.len()),
    decreases bytes.len(),
{
    if bytes.len() > 0 {
        lemma_be_value_bound(bytes.drop_last());
    }
}

/// The first powers of 256.
pub(crate) proof fn lemma_pow256_values()
    ensures
        pow256(0) == 1,
        pow256(1) == 0x100,
        pow256(2) == 0x1_0000,
        pow256(4) == 0x1_0000_0000,
        pow256(8) == 0x1_0000_0000_0000_0000,
{
    reveal_with_fuel(pow256, 9);
}

/// `LittleEndian::read_u16` of byteorder: the first two bytes of `buf`, least significant
/// first. It panics on a shorter buffer.
#[verifier::external_body]
pub(crate) fn read_u16_le(buf: &[u8]) -> (r: u16)
    requires
        buf@.len() >= 2,
    ensures
        r == le_value(buf@.subrange(0, 2)),
{
    LittleEndian::read_u16(buf)
}

/// `LittleEndian::read_u32` of byteorder: the first four bytes of `buf`, least
/// significant first. It panics on a shorter buffer.
#[verifier::external_body]
pub(crate) fn read_u32_le(buf: &[u8]) -> (r: u32)
    requires
        buf@.len() >= 4,
    ensures
        r == le_value(buf@.subrange(0, 4)),
{
    LittleEndian::read_u32(buf)
}

/// `LittleEndian::read_i32` of byteorder: the first four bytes of `buf`, least
/// significant first, in two's complement. It panics on a shorter buffer.
#[verifier::external_body]
pub(crate) fn read_i32_le(buf: &[u8]) -> (r: i32)
    requires
        buf@.len() >= 4,
    ensures
        r == signed_le_value(buf@.subrange(0, 4)),
{
    LittleEndian::read_i32(buf)
}

/// `LittleEndian::read_u64` of byteorder: the first eight bytes of `buf`, least
/// significant first. It panics on a shorter buffer.
#[verifier::external_body]
pub(crate) fn read_u64_le(buf: &[u8]) -> (r: u64)
    requires
        buf@.len() >= 8,
    ensures
        r == le_value(buf@.subrange(0, 8)),
{
    LittleEndian::read_u64(buf)
}

/// `BigEndian::read_u64` of byteorder: the first eight bytes of `buf`, most significant
/// first. It panics on a shorter buffer.
#[verifier::external_body]
pub(crate) fn read_u64_be(buf: &[u8]) -> (r: u64)
    requires
        buf@.len() >= 8,
    ensures
        r == be_value(buf@.subrange(0, 8)),
{
    BigEndian::read_u64(buf)
}

} // verus!
