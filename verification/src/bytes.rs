//! Little-endian numbers inside account data.
use vstd::prelude::*;

use crate::num::signed128;

verus! {

pub open spec fn u16_at(s: Seq<u8>, at: int) -> int {
    s[at] + s[at + 1] * 0x100
}

pub open spec fn u32_at(s: Seq<u8>, at: int) -> int {
    u16_at(s, at) + u16_at(s, at + 2) * 0x1_0000
}

pub open spec fn u64_at(s: Seq<u8>, at: int) -> int {
    u32_at(s, at) + u32_at(s, at + 4) * 0x1_0000_0000
}

pub open spec fn u128_at(s: Seq<u8>, at: int) -> int {
    u64_at(s, at) + u64_at(s, at + 8) * 0x1_0000_0000_0000_0000
}

pub open spec fn i32_at(s: Seq<u8>, at: int) -> int {
    let v = u32_at(s, at);
    if v < 0x8000_0000 {
        v
    } else {
        v - 0x1_0000_0000
    }
}

pub open spec fn i128_at(s: Seq<u8>, at: int) -> int {
    signed128(u128_at(s, at))
}

pub fn read_u16_le(data: &[u8], offset: usize) -> (r: u16)
    requires
        offset + 2 <= data.len(),
    ensures
        r == u16_at(data@, offset as int),
{
    data[offset] as u16 + data[offset + 1] as u16 * 0x100
}

pub fn read_u32_le(data: &[u8], offset: usize) -> (r: u32)
    requires
        offset + 4 <= data.len(),
    ensures
        r == u32_at(data@, offset as int),
{
    read_u16_le(data, offset) as u32 + read_u16_le(data, offset + 2) as u32 * 0x1_0000
}

pub fn read_u64_le(data: &[u8], offset: usize) -> (r: u64)
    requires
        offset + 8 <= data.len(),
    ensures
        r == u64_at(data@, offset as int),
{
    read_u32_le(data, offset) as u64 + read_u32_le(data, offset + 4) as u64 * 0x1_0000_0000
}

pub fn read_u128_le(data: &[u8], offset: usize) -> (r: u128)
    requires
        offset + 16 <= data.len(),
    ensures
        r == u128_at(data@, offset as int),
{
    read_u64_le(data, offset) as u128 + read_u64_le(data, offset + 8) as u128 * 0x1_0000_0000_0000_0000
}

pub fn read_i32_le(data: &[u8], offset: usize) -> (r: i32)
    requires
        offset + 4 <= data.len(),
    ensures
        r == i32_at(data@, offset as int),
{
    let v = read_u32_le(data, offset);
    if v < 0x8000_0000 {
        v as i32
    } else {
        (v as i64 - 0x1_0000_0000) as i32
    }
}

pub fn read_i128_le(data: &[u8], offset: usize) -> (r: i128)
    requires
        offset + 16 <= data.len(),
    ensures
        r == i128_at(data@, offset as int),
{
    crate::num::u128_as_i128(read_u128_le(data, offset))
}

/// Where a token account keeps its balance.
pub const TOKEN_AMOUNT_OFFSET: usize = 64;

/// The balance of a token account; nothing where the data is too short.
pub open spec fn token_balance(s: Seq<u8>) -> Option<u64> {
    if s.len() >= 72 {
        Some(u64_at(s, 64) as u64)
    } else {
        None
    }
}

pub fn read_token_balance(data: &[u8]) -> (r: Option<u64>)
    ensures
        r == token_balance(data@),
{
    if data.len() >= 72 {
        Some(read_u64_le(data, TOKEN_AMOUNT_OFFSET))
    } else {
        None
    }
}

/// Whether two strings hold the same characters.
pub fn str_eq(a: &str, b: &str) -> (r: bool)
    ensures
        r == (a@ == b@),
{
    a.to_owned() == b.to_owned()
}

/// A run of 64-bit words.
pub open spec fn words_at(s: Seq<u8>, at: int, n: nat) -> Seq<u64> {
    Seq::new(n, |i: int| u64_at(s, at + 8 * i) as u64)
}

pub fn read_bytes_1(data: &[u8], offset: usize) -> (r: [u8; 1])
    requires
        offset + 1 <= data.len(),
    ensures
        r@ == data@.subrange(offset as int, offset + 1),
{
    let mut bytes: [u8; 1] = [0; 1];
    let mut i: usize = 0;
    while i < 1
        invariant
            i <= 1,
            offset + 1 <= data.len(),
            forall|k: int| 0 <= k < i ==> bytes@[k] == data@[offset + k],
        decreases 1 - i,
    {
        bytes[i] = data[offset + i];
        i = i + 1;
    }
    assert(bytes@ =~= data@.subrange(offset as int, offset + 1));
    bytes
}

pub fn read_bytes_7(data: &[u8], offset: usize) -> (r: [u8; 7])
    requires
        offset + 7 <= data.len(),
    ensures
        r@ == data@.subrange(offset as int, offset + 7),
{
    let mut bytes: [u8; 7] = [0; 7];
    let mut i: usize = 0;
    while i < 7
        invariant
            i <= 7,
            offset + 7 <= data.len(),
            forall|k: int| 0 <= k < i ==> bytes@[k] == data@[offset + k],
        decreases 7 - i,
    {
        bytes[i] = data[offset + i];
        i = i + 1;
    }
    assert(bytes@ =~= data@.subrange(offset as int, offset + 7));
    bytes
}

pub fn read_bytes_16(data: &[u8], offset: usize) -> (r: [u8; 16])
    requires
        offset + 16 <= data.len(),
    ensures
        r@ == data@.subrange(offset as int, offset + 16),
{
    let mut bytes: [u8; 16] = [0; 16];
    let mut i: usize = 0;
    while i < 16
        invariant
            i <= 16,
            offset + 16 <= data.len(),
            forall|k: int| 0 <= k < i ==> bytes@[k] == data@[offset + k],
        decreases 16 - i,
    {
        bytes[i] = data[offset + i];
        i = i + 1;
    }
    assert(bytes@ =~= data@.subrange(offset as int, offset + 16));
    bytes
}

pub fn read_bytes_32(data: &[u8], offset: usize) -> (r: [u8; 32])
    requires
        offset + 32 <= data.len(),
    ensures
        r@ == data@.subrange(offset as int, offset + 32),
{
    let mut bytes: [u8; 32] = [0; 32];
    let mut i: usize = 0;
    while i < 32
        invariant
            i <= 32,
            offset + 32 <= data.len(),
            forall|k: int| 0 <= k < i ==> bytes@[k] == data@[offset + k],
        decreases 32 - i,
    {
        bytes[i] = data[offset + i];
        i = i + 1;
    }
    assert(bytes@ =~= data@.subrange(offset as int, offset + 32));
    bytes
}

pub fn read_bytes_128(data: &[u8], offset: usize) -> (r: [u8; 128])
    requires
        offset + 128 <= data.len(),
    ensures
        r@ == data@.subrange(offset as int, offset + 128),
{
    let mut bytes: [u8; 128] = [0; 128];
    let mut i: usize = 0;
    while i < 128
        invariant
            i <= 128,
            offset + 128 <= data.len(),
            forall|k: int| 0 <= k < i ==> bytes@[k] == data@[offset + k],
        decreases 128 - i,
    {
        bytes[i] = data[offset + i];
        i = i + 1;
    }
    assert(bytes@ =~= data@.subrange(offset as int, offset + 128));
    bytes
}

pub fn read_words_16(data: &[u8], offset: usize) -> (r: [u64; 16])
    requires
        offset + 128 <= data.len(),
    ensures
        r@ == words_at(data@, offset as int, 16),
{
    let mut words: [u64; 16] = [0; 16];
    let mut i: usize = 0;
    while i < 16
        invariant
            i <= 16,
            offset + 128 <= data.len(),
            forall|k: int| 0 <= k < i ==> words@[k] == u64_at(data@, offset + 8 * k),
        decreases 16 - i,
    {
        words[i] = read_u64_le(data, offset + 8 * i);
        i = i + 1;
    }
    assert(words@ =~= words_at(data@, offset as int, 16));
    words
}

pub fn read_words_24(data: &[u8], offset: usize) -> (r: [u64; 24])
    requires
        offset + 192 <= data.len(),
    ensures
        r@ == words_at(data@, offset as int, 24),
{
    let mut words: [u64; 24] = [0; 24];
    let mut i: usize = 0;
    while i < 24
        invariant
            i <= 24,
            offset + 192 <= data.len(),
            forall|k: int| 0 <= k < i ==> words@[k] == u64_at(data@, offset + 8 * k),
        decreases 24 - i,
    {
        words[i] = read_u64_le(data, offset + 8 * i);
        i = i + 1;
    }
    assert(words@ =~= words_at(data@, offset as int, 24));
    words
}

pub fn read_words_32(data: &[u8], offset: usize) -> (r: [u64; 32])
    requires
        offset + 256 <= data.len(),
    ensures
        r@ == words_at(data@, offset as int, 32),
{
    let mut words: [u64; 32] = [0; 32];
    let mut i: usize = 0;
    while i < 32
        invariant
            i <= 32,
            offset + 256 <= data.len(),
            forall|k: int| 0 <= k < i ==> words@[k] == u64_at(data@, offset + 8 * k),
        decreases 32 - i,
    {
        words[i] = read_u64_le(data, offset + 8 * i);
        i = i + 1;
    }
    assert(words@ =~= words_at(data@, offset as int, 32));
    words
}

/// Words stand in an account with their lowest byte first; signed ones count
/// down from the top of their range.
pub proof fn law_words_have_their_lowest_byte_first(s: Seq<u8>, at: int)
    ensures
        u16_at(s, at) == s[at] + 0x100 * s[at + 1],
        u32_at(s, at) == s[at] + 0x100 * s[at + 1] + 0x1_0000 * s[at + 2] + 0x100_0000 * s[at + 3],
        u64_at(s, at) == s[at] + 0x100 * s[at + 1] + 0x1_0000 * s[at + 2] + 0x100_0000 * s[at + 3] + 0x1_0000_0000 * s[at
            + 4] + 0x100_0000_0000 * s[at + 5] + 0x1_0000_0000_0000 * s[at + 6] + 0x100_0000_0000_0000 * s[at + 7],
        u128_at(s, at) == u64_at(s, at) + 0x1_0000_0000_0000_0000 * u64_at(s, at + 8),
        i32_at(s, at) == u32_at(s, at) || i32_at(s, at) == u32_at(s, at) - 0x1_0000_0000,
        -0x8000_0000 <= i32_at(s, at) < 0x8000_0000,
{
}

}
