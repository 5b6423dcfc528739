//! Little-endian words and fixed-size records, as they stand in files and in the blocks
//! of parameters that kernels read.

use vstd::prelude::*;

verus! {

/// The two bytes of `x`, least significant first.
pub open spec fn le16(x: u16) -> Seq<u8> {
    seq![(x % 256) as u8, (x / 256) as u8]
}

/// The four bytes of `x`, least significant first.
pub open spec fn le32(x: u32) -> Seq<u8> {
    seq![
        (x % 256) as u8,
        (x / 256 % 256) as u8,
        (x / 65536 % 256) as u8,
        (x / 16777216) as u8,
    ]
}

/// The eight bytes of `x`, least significant first.
pub open spec fn le64(x: u64) -> Seq<u8> {
    le32((x % 0x1_0000_0000) as u32) + le32((x / 0x1_0000_0000) as u32)
}

/// The number whose two bytes, least significant first, stand at `at`.
pub open spec fn word16(s: Seq<u8>, at: int) -> u16 {
    (s[at] + 256 * s[at + 1]) as u16
}

/// The number whose four bytes, least significant first, stand at `at`.
pub open spec fn word32(s: Seq<u8>, at: int) -> u32 {
    (s[at] + 256 * s[at + 1] + 65536 * s[at + 2] + 16777216 * s[at + 3]) as u32
}

/// The number whose eight bytes, least significant first, stand at `at`.
pub open spec fn word64(s: Seq<u8>, at: int) -> u64 {
    (word32(s, at) + 0x1_0000_0000 * word32(s, at + 4)) as u64
}

/// A word read where it was written is the word.
pub broadcast proof fn lemma_word16_of_le16(x: u16)
    ensures
        #[trigger] le16(x).len() == 2,
        word16(le16(x), 0) == x,
{
}

/// A word read where it was written is the word.
pub broadcast proof fn lemma_word32_of_le32(x: u32)
    ensures
        #[trigger] le32(x).len() == 4,
        word32(le32(x), 0) == x,
{
}

/// A word read where it was written is the word.
pub broadcast proof fn lemma_word64_of_le64(x: u64)
    ensures
        #[trigger] le64(x).len() == 8,
        word64(le64(x), 0) == x,
{
    lemma_word32_of_le32((x % 0x1_0000_0000) as u32);
    lemma_word32_of_le32((x / 0x1_0000_0000) as u32);
    let low = le32((x % 0x1_0000_0000) as u32);
    let high = le32((x / 0x1_0000_0000) as u32);
    assert(word32(le64(x), 0) == word32(low, 0));
    assert(word32(le64(x), 4) == word32(high, 0));
}

/// A word depends only on its own bytes.
pub proof fn lemma_word32_local(s: Seq<u8>, at: int, t: Seq<u8>, to: int)
    requires
        0 <= at,
        at + 4 <= s.len(),
        0 <= to,
        to + 4 <= t.len(),
        s.subrange(at, at + 4) == t.subrange(to, to + 4),
    ensures
        word32(s, at) == word32(t, to),
{
    let a = s.subrange(at, at + 4);
    let b = t.subrange(to, to + 4);
    assert(a[0] == s[at] && a[1] == s[at + 1] && a[2] == s[at + 2] && a[3] == s[at + 3]);
    assert(b[0] == t[to] && b[1] == t[to + 1] && b[2] == t[to + 2] && b[3] == t[to + 3]);
}

/// Reads the two-byte word at `at`.
pub fn get_u16(bytes: &[u8], at: usize) -> (x: u16)
    requires
        at + 2 <= bytes@.len(),
    ensures
        x == word16(bytes@, at as int),
{
    bytes[at] as u16 + 256 * (bytes[at + 1] as u16)
}

/// Reads the four-byte word at `at`.
pub fn get_u32(bytes: &[u8], at: usize) -> (x: u32)
    requires
        at + 4 <= bytes@.len(),
    ensures
        x == word32(bytes@, at as int),
{
    bytes[at] as u32 + 256 * (bytes[at + 1] as u32) + 65536 * (bytes[at + 2] as u32) + 16777216 * (
    bytes[at + 3] as u32)
}

/// Reads the eight-byte word at `at`.
pub fn get_u64(bytes: &[u8], at: usize) -> (x: u64)
    requires
        at + 8 <= bytes@.len(),
    ensures
        x == word64(bytes@, at as int),
{
    assert(bytes.len() <= usize::MAX);
    get_u32(bytes, at) as u64 + 0x1_0000_0000 * (get_u32(bytes, at + 4) as u64)
}

/// Appends a two-byte word.
pub fn put_u16(out: &mut Vec<u8>, x: u16)
    ensures
        final(out)@ == old(out)@ + le16(x),
{
    out.push((x % 256) as u8);
    out.push((x / 256) as u8);
    assert(out@ =~= old(out)@ + le16(x));
}

/// Appends a four-byte word.
pub fn put_u32(out: &mut Vec<u8>, x: u32)
    ensures
        final(out)@ == old(out)@ + le32(x),
{
    out.push((x % 256) as u8);
    out.push((x / 256 % 256) as u8);
    out.push((x / 65536 % 256) as u8);
    out.push((x / 16777216) as u8);
    assert(out@ =~= old(out)@ + le32(x));
}

/// Appends an eight-byte word.
pub fn put_u64(out: &mut Vec<u8>, x: u64)
    ensures
        final(out)@ == old(out)@ + le64(x),
{
    put_u32(out, (x % 0x1_0000_0000) as u32);
    put_u32(out, (x / 0x1_0000_0000) as u32);
    assert(out@ =~= old(out)@ + le64(x));
}

} // verus!
