//! Multi-byte unsigned integers in a declared byte order.

use vstd::prelude::*;

verus! {

/// The order in which the bytes of a multi-byte integer are stored.
#[derive(Clone, Copy, Debug, PartialEq, Eq, Structural)]
pub enum Endian {
    /// Least significant byte first.
    Little,
    /// Most significant byte first.
    Big,
}

/// The number spelled by `b` when its first byte is the least significant.
pub open spec fn le_value(b: Seq<u8>) -> nat
    decreases b.len(),
{
    if b.len() == 0 {
        0
    } else {
        b[0] as nat + 256 * le_value(b.drop_first())
    }
}

/// The number spelled by `b` when its first byte is the most significant.
pub open spec fn be_value(b: Seq<u8>) -> nat
    decreases b.len(),
{
    if b.len() == 0 {
        0
    } else {
        256 * be_value(b.drop_last()) + b.last() as nat
    }
}

/// The number spelled by `b` in the byte order `endian`.
pub open spec fn value_of(b: Seq<u8>, endian: Endian) -> nat {
    match endian {
        Endian::Little => le_value(b),
        Endian::Big => be_value(b),
    }
}

/// The number stored in the `width` bytes of `bytes` that start at `off`.
pub open spec fn field(bytes: Seq<u8>, off: int, width: int, endian: Endian) -> nat {
    value_of(bytes.subrange(off, off + width), endian)
}

/// Calls `zerocopy::byteorder::U16::<LittleEndian>::from_bytes` and `get`.
/// Trusted: the result is the two bytes read as a little-endian number.
#[verifier::external_body]
fn u16_le(b: [u8; 2]) -> (r: u16)
    ensures
        r as nat == le_value(b@),
{
    zerocopy::byteorder::U16::<zerocopy::byteorder::LittleEndian>::from_bytes(b).get()
}

/// Calls `zerocopy::byteorder::U16::<BigEndian>::from_bytes` and `get`.
/// Trusted: the result is the two bytes read as a big-endian number.
#[verifier::external_body]
fn u16_be(b: [u8; 2]) -> (r: u16)
    ensures
        r as nat == be_value(b@),
{
    zerocopy::byteorder::U16::<zerocopy::byteorder::BigEndian>::from_bytes(b).get()
}

/// Calls `zerocopy::byteorder::U32::<LittleEndian>::from_bytes` and `get`.
/// Trusted: the result is the four bytes read as a little-endian number.
#[verifier::external_body]
fn u32_le(b: [u8; 4]) -> (r: u32)
    ensures
        r as nat == le_value(b@),
{
    zerocopy::byteorder::U32::<zerocopy::byteorder::LittleEndian>::from_bytes(b).get()
}

/// Calls `zerocopy::byteorder::U32::<BigEndian>::from_bytes` and `get`.
/// Trusted: the result is the four bytes read as a big-endian number.
#[verifier::external_body]
fn u32_be(b: [u8; 4]) -> (r: u32)
    ensures
        r as nat == be_value(b@),
{
    zerocopy::byteorder::U32::<zerocopy::byteorder::BigEndian>::from_bytes(b).get()
}

/// Calls `zerocopy::byteorder::U64::<LittleEndian>::from_bytes` and `get`.
/// Trusted: the result is the eight bytes read as a little-endian number.
#[verifier::external_body]
fn u64_le(b: [u8; 8]) -> (r: u64)
    ensures
        r as nat == le_value(b@),
{
    zerocopy::byteorder::U64::<zerocopy::byteorder::LittleEndian>::from_bytes(b).get()
}

/// Calls `zerocopy::byteorder::U64::<BigEndian>::from_bytes` and `get`.
/// Trusted: the result is the eight bytes read as a big-endian number.
#[verifier::external_body]
fn u64_be(b: [u8; 8]) -> (r: u64)
    ensures
        r as nat == be_value(b@),
{
    zerocopy::byteorder::U64::<zerocopy::byteorder::BigEndian>::from_bytes(b).get()
}

/// Reads the 16-bit number stored at `off` in `bytes` in the order `endian`.
pub fn read_u16(bytes: &[u8], off: usize, endian: Endian) -> (r: u16)
    requires
        off + 2 <= bytes@.len(),
    ensures
        r as nat == field(bytes@, off as int, 2, endian),
{
    let b: [u8; 2] = [bytes[off], bytes[off + 1]];
    assert(b@ =~= bytes@.subrange(off as int, off + 2));
    match endian {
        Endian::Little => u16_le(b),
        Endian::Big => u16_be(b),
    }
}

/// Reads the 32-bit number stored at `off` in `bytes` in the order `endian`.
pub fn read_u32(bytes: &[u8], off: usize, endian: Endian) -> (r: u32)
    requires
        off + 4 <= bytes@.len(),
    ensures
        r as nat == field(bytes@, off as int, 4, endian),
{
    let b: [u8; 4] = [bytes[off], bytes[off + 1], bytes[off + 2], bytes[off + 3]];
    assert(b@ =~= bytes@.subrange(off as int, off + 4));
    match endian {
        Endian::Little => u32_le(b),
        Endian::Big => u32_be(b),
    }
}

/// Reads the 64-bit number stored at `off` in `bytes` in the order `endian`.
pub fn read_u64(bytes: &[u8], off: usize, endian: Endian) -> (r: u64)
    requires
        off + 8 <= bytes@.len(),
    ensures
        r as nat == field(bytes@, off as int, 8, endian),
{
    let b: [u8; 8] = [
        bytes[off],
        bytes[off + 1],
        bytes[off + 2],
        bytes[off + 3],
        bytes[off + 4],
        bytes[off + 5],
        bytes[off + 6],
        bytes[off + 7],
    ];
    assert(b@ =~= bytes@.subrange(off as int, off + 8));
    match endian {
        Endian::Little => u64_le(b),
        Endian::Big => u64_be(b),
    }
}

/// What two bytes spell in either order.
pub proof fn lemma_value_of_two_bytes(b: Seq<u8>)
    requires
        b.len() == 2,
    ensures
        le_value(b) == b[0] + 0x100 * b[1],
        be_value(b) == 0x100 * b[0] + b[1],
        le_value(b) <= u16::MAX,
        be_value(b) <= u16::MAX,
{
    reveal_with_fuel(le_value, 3);
    reveal_with_fuel(be_value, 3);
    assert(b.drop_first()[0] == b[1]);
    assert(b.drop_last()[0] == b[0]);
}

/// What four bytes spell in either order.
pub proof fn lemma_value_of_four_bytes(b: Seq<u8>)
    requires
        b.len() == 4,
    ensures
        le_value(b) == b[0] + 0x100 * b[1] + 0x1_0000 * b[2] + 0x100_0000 * b[3],
        be_value(b) == 0x100_0000 * b[0] + 0x1_0000 * b[1] + 0x100 * b[2] + b[3],
        le_value(b) <= u32::MAX,
        be_value(b) <= u32::MAX,
{
    lemma_value_of_two_bytes(b.subrange(2, 4));
    lemma_value_of_two_bytes(b.subrange(0, 2));
    reveal_with_fuel(le_value, 3);
    reveal_with_fuel(be_value, 3);
    assert(b.drop_first().drop_first() =~= b.subrange(2, 4));
    assert(b.drop_last().drop_last() =~= b.subrange(0, 2));
}

/// What eight bytes spell in either order.
pub proof fn lemma_value_of_eight_bytes(b: Seq<u8>)
    requires
        b.len() == 8,
    ensures
        le_value(b) == b[0] + 0x100 * b[1] + 0x1_0000 * b[2] + 0x100_0000 * b[3] + 0x1_0000_0000
            * b[4] + 0x100_0000_0000 * b[5] + 0x1_0000_0000_0000 * b[6] + 0x100_0000_0000_0000
            * b[7],
        be_value(b) == 0x100_0000_0000_0000 * b[0] + 0x1_0000_0000_0000 * b[1] + 0x100_0000_0000
            * b[2] + 0x1_0000_0000 * b[3] + 0x100_0000 * b[4] + 0x1_0000 * b[5] + 0x100 * b[6]
            + b[7],
        le_value(b) <= u64::MAX,
        be_value(b) <= u64::MAX,
{
    lemma_value_of_four_bytes(b.subrange(4, 8));
    lemma_value_of_four_bytes(b.subrange(0, 4));
    reveal_with_fuel(le_value, 5);
    reveal_with_fuel(be_value, 5);
    assert(b.drop_first().drop_first().drop_first().drop_first() =~= b.subrange(4, 8));
    assert(b.drop_last().drop_last().drop_last().drop_last() =~= b.subrange(0, 4));
}

} // verus!
