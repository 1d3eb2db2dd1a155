//! Byte-order codec: reads fixed-width little- or big-endian words out
//! of raw byte buffers.  Container readers use it for header fields;
//! tensor payloads are chunked into element words here and widened to
//! floating point outside the library.

use vstd::prelude::*;

verus! {

/// The little-endian value of the two bytes at `i`.
pub open spec fn le16(s: Seq<u8>, i: int) -> int {
    s[i] + 256 * s[i + 1]
}

/// The little-endian value of the four bytes at `i`.
pub open spec fn le32(s: Seq<u8>, i: int) -> int {
    le16(s, i) + 0x10000 * le16(s, i + 2)
}

/// The little-endian value of the eight bytes at `i`.
pub open spec fn le64(s: Seq<u8>, i: int) -> int {
    le32(s, i) + 0x1_0000_0000 * le32(s, i + 4)
}

/// The big-endian value of the two bytes at `i`.
pub open spec fn be16(s: Seq<u8>, i: int) -> int {
    256 * s[i] + s[i + 1]
}

/// The big-endian value of the four bytes at `i`.
pub open spec fn be32(s: Seq<u8>, i: int) -> int {
    0x10000 * be16(s, i) + be16(s, i + 2)
}

/// The big-endian value of the eight bytes at `i`.
pub open spec fn be64(s: Seq<u8>, i: int) -> int {
    0x1_0000_0000 * be32(s, i) + be32(s, i + 4)
}

/// The 16-bit word at `i` under the chosen endianness.
pub open spec fn word16(s: Seq<u8>, i: int, little: bool) -> int {
    if little {
        le16(s, i)
    } else {
        be16(s, i)
    }
}

/// The 32-bit word at `i` under the chosen endianness.
pub open spec fn word32(s: Seq<u8>, i: int, little: bool) -> int {
    if little {
        le32(s, i)
    } else {
        be32(s, i)
    }
}

/// The 64-bit word at `i` under the chosen endianness.
pub open spec fn word64(s: Seq<u8>, i: int, little: bool) -> int {
    if little {
        le64(s, i)
    } else {
        be64(s, i)
    }
}

/// Reads the 16-bit word at `at`.
pub fn read_u16(bytes: &[u8], at: usize, little: bool) -> (r: u16)
    requires
        at + 2 <= bytes@.len(),
    ensures
        r == word16(bytes@, at as int, little),
{
    let b0 = bytes[at] as u16;
    let b1 = bytes[at + 1] as u16;
    if little {
        b0 + 256 * b1
    } else {
        256 * b0 + b1
    }
}

/// Reads the 32-bit word at `at`.
pub fn read_u32(bytes: &[u8], at: usize, little: bool) -> (r: u32)
    requires
        at + 4 <= bytes@.len(),
    ensures
        r == word32(bytes@, at as int, little),
{
    let blen = bytes.len();
    assert(bytes@.len() == blen);
    if little {
        let lo = read_u16(bytes, at, true) as u32;
        let hi = read_u16(bytes, at + 2, true) as u32;
        lo + 0x10000 * hi
    } else {
        let hi = read_u16(bytes, at, false) as u32;
        let lo = read_u16(bytes, at + 2, false) as u32;
        0x10000 * hi + lo
    }
}

/// Reads the 64-bit word at `at`.
pub fn read_u64(bytes: &[u8], at: usize, little: bool) -> (r: u64)
    requires
        at + 8 <= bytes@.len(),
    ensures
        r == word64(bytes@, at as int, little),
{
    let blen = bytes.len();
    assert(bytes@.len() == blen);
    if little {
        let lo = read_u32(bytes, at, true) as u64;
        let hi = read_u32(bytes, at + 4, true) as u64;
        lo + 0x1_0000_0000 * hi
    } else {
        let hi = read_u32(bytes, at, false) as u64;
        let lo = read_u32(bytes, at + 4, false) as u64;
        0x1_0000_0000 * hi + lo
    }
}

/// Splits `bytes` into consecutive 16-bit words; a trailing partial
/// element is dropped.
pub fn decode_u16s(bytes: &[u8], little: bool) -> (r: Vec<u16>)
    ensures
        r@.len() == bytes@.len() / 2,
        forall|k: int|
            0 <= k < r@.len() ==> #[trigger] r@[k] == word16(bytes@, 2 * k, little),
{
    let n = bytes.len() / 2;
    let mut out: Vec<u16> = Vec::new();
    let mut k: usize = 0;
    while k < n
        invariant
            0 <= k <= n,
            n == bytes@.len() / 2,
            bytes@.len() <= usize::MAX,
            out@.len() == k,
            forall|j: int|
                0 <= j < k ==> #[trigger] out@[j] == word16(bytes@, 2 * j, little),
        decreases n - k,
    {
        out.push(read_u16(bytes, 2 * k, little));
        k += 1;
    }
    out
}

/// Splits `bytes` into consecutive 32-bit words; a trailing partial
/// element is dropped.
pub fn decode_u32s(bytes: &[u8], little: bool) -> (r: Vec<u32>)
    ensures
        r@.len() == bytes@.len() / 4,
        forall|k: int|
            0 <= k < r@.len() ==> #[trigger] r@[k] == word32(bytes@, 4 * k, little),
{
    let n = bytes.len() / 4;
    let mut out: Vec<u32> = Vec::new();
    let mut k: usize = 0;
    while k < n
        invariant
            0 <= k <= n,
            n == bytes@.len() / 4,
            bytes@.len() <= usize::MAX,
            out@.len() == k,
            forall|j: int|
                0 <= j < k ==> #[trigger] out@[j] == word32(bytes@, 4 * j, little),
        decreases n - k,
    {
        out.push(read_u32(bytes, 4 * k, little));
        k += 1;
    }
    out
}

/// Splits `bytes` into consecutive 64-bit words; a trailing partial
/// element is dropped.
pub fn decode_u64s(bytes: &[u8], little: bool) -> (r: Vec<u64>)
    ensures
        r@.len() == bytes@.len() / 8,
        forall|k: int|
            0 <= k < r@.len() ==> #[trigger] r@[k] == word64(bytes@, 8 * k, little),
{
    let n = bytes.len() / 8;
    let mut out: Vec<u64> = Vec::new();
    let mut k: usize = 0;
    while k < n
        invariant
            0 <= k <= n,
            n == bytes@.len() / 8,
            bytes@.len() <= usize::MAX,
            out@.len() == k,
            forall|j: int|
                0 <= j < k ==> #[trigger] out@[j] == word64(bytes@, 8 * j, little),
        decreases n - k,
    {
        out.push(read_u64(bytes, 8 * k, little));
        k += 1;
    }
    out
}

/// Relies on `u16::from_ne_bytes`: reports whether this machine stores
/// integers least significant byte first.
#[verifier::external_body]
fn native_is_little() -> bool {
    u16::from_ne_bytes([1u8, 0u8]) == 1
}

/// A byte order selects how multi-byte words are laid out in a buffer.
pub trait ByteOrder {
    /// True when words are read least significant byte first.
    fn is_little() -> bool;
}

/// Little-endian byte order.
pub struct LE;

/// Big-endian byte order.
pub struct BE;

/// The machine's native byte order.
pub struct NE;

impl ByteOrder for LE {
    fn is_little() -> (r: bool)
        ensures
            r == true,
    {
        true
    }
}

impl ByteOrder for BE {
    fn is_little() -> (r: bool)
        ensures
            r == false,
    {
        false
    }
}

impl ByteOrder for NE {
    fn is_little() -> bool {
        native_is_little()
    }
}

/// Splits `bytes` into 16-bit words under the byte order `O`; the
/// result is the little- or the big-endian reading, as `O` selects.
pub fn decode_u16s_ordered<O: ByteOrder>(bytes: &[u8]) -> (r: Vec<u16>)
    ensures
        r@.len() == bytes@.len() / 2,
        (forall|k: int|
            0 <= k < r@.len() ==> #[trigger] r@[k] == word16(bytes@, 2 * k, true)) || (forall|
            k: int,
        |
            0 <= k < r@.len() ==> #[trigger] r@[k] == word16(bytes@, 2 * k, false)),
{
    decode_u16s(bytes, O::is_little())
}

/// Splits `bytes` into 32-bit words under the byte order `O`.
pub fn decode_u32s_ordered<O: ByteOrder>(bytes: &[u8]) -> (r: Vec<u32>)
    ensures
        r@.len() == bytes@.len() / 4,
        (forall|k: int|
            0 <= k < r@.len() ==> #[trigger] r@[k] == word32(bytes@, 4 * k, true)) || (forall|
            k: int,
        |
            0 <= k < r@.len() ==> #[trigger] r@[k] == word32(bytes@, 4 * k, false)),
{
    decode_u32s(bytes, O::is_little())
}

/// Splits `bytes` into 64-bit words under the byte order `O`.
pub fn decode_u64s_ordered<O: ByteOrder>(bytes: &[u8]) -> (r: Vec<u64>)
    ensures
        r@.len() == bytes@.len() / 8,
        (forall|k: int|
            0 <= k < r@.len() ==> #[trigger] r@[k] == word64(bytes@, 8 * k, true)) || (forall|
            k: int,
        |
            0 <= k < r@.len() ==> #[trigger] r@[k] == word64(bytes@, 8 * k, false)),
{
    decode_u64s(bytes, O::is_little())
}

} // verus!
