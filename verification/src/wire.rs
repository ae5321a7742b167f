//! Little-endian integers in byte buffers.
use vstd::prelude::*;

verus! {

/// The 16-bit little-endian integer that starts at `i`.
pub open spec fn u16_at(s: Seq<u8>, i: int) -> u16 {
    (s[i] + 0x100 * s[i + 1]) as u16
}

/// The 32-bit little-endian integer that starts at `i`.
pub open spec fn u32_at(s: Seq<u8>, i: int) -> u32 {
    (s[i] + 0x100 * s[i + 1] + 0x1_0000 * s[i + 2] + 0x100_0000 * s[i + 3]) as u32
}

/// The 64-bit little-endian integer that starts at `i`.
pub open spec fn u64_at(s: Seq<u8>, i: int) -> u64 {
    (u32_at(s, i) + 0x1_0000_0000 * u32_at(s, i + 4)) as u64
}

/// The two's complement reading of a 16-bit word.
pub open spec fn signed16(x: u16) -> i16 {
    if x < 0x8000 { x as i16 } else { (x - 0x1_0000) as i16 }
}

/// The two's complement reading of a 32-bit word.
pub open spec fn signed32(x: u32) -> i32 {
    if x < 0x8000_0000 { x as i32 } else { (x - 0x1_0000_0000) as i32 }
}

/// The two's complement reading of a 64-bit word.
pub open spec fn signed64(x: u64) -> i64 {
    if x < 0x8000_0000_0000_0000 { x as i64 } else { (x - 0x1_0000_0000_0000_0000) as i64 }
}

/// The two's complement reading of a byte.
pub open spec fn signed8(x: u8) -> i8 {
    if x < 0x80 { x as i8 } else { (x - 0x100) as i8 }
}

/// The signed 64-bit little-endian integer that starts at `i`.
pub open spec fn i64_at(s: Seq<u8>, i: int) -> i64 {
    signed64(u64_at(s, i))
}

/// The two bytes of `x`, low byte first.
#[verifier::opaque]
pub open spec fn le16(x: u16) -> Seq<u8> {
    seq![(x % 0x100) as u8, (x / 0x100) as u8]
}

/// The four bytes of `x`, low byte first.
#[verifier::opaque]
pub open spec fn le32(x: u32) -> Seq<u8> {
    seq![
        (x % 0x100) as u8,
        ((x / 0x100) % 0x100) as u8,
        ((x / 0x1_0000) % 0x100) as u8,
        (x / 0x100_0000) as u8,
    ]
}

pub broadcast proof fn lemma_le16_len(x: u16)
    ensures
        #[trigger] le16(x).len() == 2,
{
    reveal(le16);
}

pub broadcast proof fn lemma_le32_len(x: u32)
    ensures
        #[trigger] le32(x).len() == 4,
{
    reveal(le32);
}

pub broadcast group group_wire {
    lemma_le16_len,
    lemma_le32_len,
}

/// Reading the bytes of a 16-bit integer gives the integer back.
pub proof fn law_le16_read(x: u16)
    ensures
        u16_at(le16(x), 0) == x,
{
    reveal(le16);
}

/// Reading the bytes of a 32-bit integer gives the integer back.
pub proof fn law_le32_read(x: u32)
    ensures
        u32_at(le32(x), 0) == x,
{
    reveal(le32);
}

/// Writing the 16-bit integer read from a buffer gives the bytes back.
pub proof fn law_le16_write(s: Seq<u8>, i: int)
    requires
        0 <= i,
        i + 2 <= s.len(),
    ensures
        le16(u16_at(s, i)) == s.subrange(i, i + 2),
{
    reveal(le16);
}

/// Writing the 32-bit integer read from a buffer gives the bytes back.
pub proof fn law_le32_write(s: Seq<u8>, i: int)
    requires
        0 <= i,
        i + 4 <= s.len(),
    ensures
        le32(u32_at(s, i)) == s.subrange(i, i + 4),
{
    reveal(le32);
    let x = u32_at(s, i) as int;
    assert(x / 0x100 == s[i + 1] + 0x100 * s[i + 2] + 0x1_0000 * s[i + 3]);
    assert(x / 0x1_0000 == s[i + 2] + 0x100 * s[i + 3]);
    assert(x / 0x100_0000 == s[i + 3]);
    assert(x % 0x100 == s[i]);
    assert((x / 0x100) % 0x100 == s[i + 1]);
    assert((x / 0x1_0000) % 0x100 == s[i + 2]);
    assert(le32(u32_at(s, i)) =~= s.subrange(i, i + 4));
}

/// An integer read through a window is the integer read at the shifted place.
pub proof fn lemma_window(s: Seq<u8>, from: int, to: int, i: int)
    requires
        0 <= from <= to <= s.len(),
        0 <= i,
    ensures
        from + i + 2 <= to ==> u16_at(s.subrange(from, to), i) == u16_at(s, from + i),
        from + i + 4 <= to ==> u32_at(s.subrange(from, to), i) == u32_at(s, from + i),
        from + i + 8 <= to ==> u64_at(s.subrange(from, to), i) == u64_at(s, from + i),
{
}

pub fn get_u16(data: &[u8], i: usize) -> (r: u16)
    requires
        i + 2 <= data@.len(),
    ensures
        r == u16_at(data@, i as int),
{
    data[i] as u16 + data[i + 1] as u16 * 0x100
}

pub fn get_u32(data: &[u8], i: usize) -> (r: u32)
    requires
        i + 4 <= data@.len(),
    ensures
        r == u32_at(data@, i as int),
{
    data[i] as u32 + data[i + 1] as u32 * 0x100 + data[i + 2] as u32 * 0x1_0000 + data[i + 3] as u32
        * 0x100_0000
}

pub fn get_u64(data: &[u8], i: usize) -> (r: u64)
    requires
        i + 8 <= data@.len(),
    ensures
        r == u64_at(data@, i as int),
{
    assert(i + 8 <= data.len());
    get_u32(data, i) as u64 + get_u32(data, i + 4) as u64 * 0x1_0000_0000
}

pub fn get_i64(data: &[u8], i: usize) -> (r: i64)
    requires
        i + 8 <= data@.len(),
    ensures
        r == i64_at(data@, i as int),
{
    to_signed64(get_u64(data, i))
}

pub fn to_signed8(x: u8) -> (r: i8)
    ensures
        r == signed8(x),
{
    if x < 0x80 {
        x as i8
    } else {
        (x as i16 - 0x100) as i8
    }
}

pub fn to_signed16(x: u16) -> (r: i16)
    ensures
        r == signed16(x),
{
    if x < 0x8000 {
        x as i16
    } else {
        (x as i32 - 0x1_0000) as i16
    }
}

pub fn to_signed32(x: u32) -> (r: i32)
    ensures
        r == signed32(x),
{
    if x < 0x8000_0000 {
        x as i32
    } else {
        (x as i64 - 0x1_0000_0000) as i32
    }
}

pub fn to_signed64(x: u64) -> (r: i64)
    ensures
        r == signed64(x),
{
    if x < 0x8000_0000_0000_0000 {
        x as i64
    } else {
        (x as i128 - 0x1_0000_0000_0000_0000) as i64
    }
}

pub fn put_u16(buf: &mut Vec<u8>, x: u16)
    ensures
        final(buf)@ == old(buf)@ + le16(x),
{
    proof {
        reveal(le16);
    }
    buf.push((x % 0x100) as u8);
    buf.push((x / 0x100) as u8);
    assert(buf@ =~= old(buf)@ + le16(x));
}

pub fn put_u32(buf: &mut Vec<u8>, x: u32)
    ensures
        final(buf)@ == old(buf)@ + le32(x),
{
    proof {
        reveal(le32);
    }
    buf.push((x % 0x100) as u8);
    buf.push(((x / 0x100) % 0x100) as u8);
    buf.push(((x / 0x1_0000) % 0x100) as u8);
    buf.push((x / 0x100_0000) as u8);
    assert(buf@ =~= old(buf)@ + le32(x));
}

/// Appends `bytes`.
pub fn put_slice(buf: &mut Vec<u8>, bytes: &[u8])
    ensures
        final(buf)@ == old(buf)@ + bytes@,
{
    buf.extend_from_slice(bytes);
    assert(buf@ =~= old(buf)@ + bytes@);
}

/// Appends `n` zero bytes.
pub fn put_zeros(buf: &mut Vec<u8>, n: usize)
    ensures
        final(buf)@ == old(buf)@ + Seq::new(n as nat, |i: int| 0u8),
{
    let mut k: usize = 0;
    while k < n
        invariant
            k <= n,
            buf@ == old(buf)@ + Seq::new(k as nat, |i: int| 0u8),
        decreases n - k,
    {
        buf.push(0);
        k = k + 1;
        assert(buf@ =~= old(buf)@ + Seq::new(k as nat, |i: int| 0u8));
    }
}

/// A copy of the bytes from `from` up to `to`.
pub fn copy_range(data: &[u8], from: usize, to: usize) -> (r: Vec<u8>)
    requires
        from <= to <= data@.len(),
    ensures
        r@ == data@.subrange(from as int, to as int),
{
    let mut r: Vec<u8> = Vec::new();
    r.extend_from_slice(vstd::slice::slice_subrange(data, from, to));
    assert(r@ =~= data@.subrange(from as int, to as int));
    r
}

/// The six bytes that start at `i`.
pub fn get_array6(data: &[u8], i: usize) -> (r: [u8; 6])
    requires
        i + 6 <= data@.len(),
    ensures
        r@ == data@.subrange(i as int, i + 6),
{
    let r = [data[i], data[i + 1], data[i + 2], data[i + 3], data[i + 4], data[i + 5]];
    assert(r@ =~= data@.subrange(i as int, i + 6));
    r
}

/// The eight bytes that start at `i`.
pub fn get_array8(data: &[u8], i: usize) -> (r: [u8; 8])
    requires
        i + 8 <= data@.len(),
    ensures
        r@ == data@.subrange(i as int, i + 8),
{
    let r = [
        data[i],
        data[i + 1],
        data[i + 2],
        data[i + 3],
        data[i + 4],
        data[i + 5],
        data[i + 6],
        data[i + 7],
    ];
    assert(r@ =~= data@.subrange(i as int, i + 8));
    r
}

/// The sixteen bytes that start at `i`.
pub fn get_array16(data: &[u8], i: usize) -> (r: [u8; 16])
    requires
        i + 16 <= data@.len(),
    ensures
        r@ == data@.subrange(i as int, i + 16),
{
    let r = [
        data[i],
        data[i + 1],
        data[i + 2],
        data[i + 3],
        data[i + 4],
        data[i + 5],
        data[i + 6],
        data[i + 7],
        data[i + 8],
        data[i + 9],
        data[i + 10],
        data[i + 11],
        data[i + 12],
        data[i + 13],
        data[i + 14],
        data[i + 15],
    ];
    assert(r@ =~= data@.subrange(i as int, i + 16));
    r
}

/// The place of the first zero at or behind `i`, or the end.
pub open spec fn zero_from(s: Seq<u8>, i: int) -> int
    decreases s.len() - i,
{
    if i < 0 || i >= s.len() {
        s.len() as int
    } else if s[i] == 0 {
        i
    } else {
        zero_from(s, i + 1)
    }
}

/// The place of the first zero, or the end.
pub fn find_zero(data: &[u8]) -> (r: usize)
    ensures
        r == zero_from(data@, 0),
        r <= data@.len(),
{
    let mut i: usize = 0;
    while i < data.len() && data[i] != 0
        invariant
            i <= data@.len(),
            zero_from(data@, i as int) == zero_from(data@, 0),
        decreases data@.len() - i,
    {
        i = i + 1;
    }
    i
}

/// The first zero is at `at` where there is none before.
pub proof fn lemma_zero_at(s: Seq<u8>, from: int, at: int)
    requires
        0 <= from <= at <= s.len(),
        at < s.len() ==> s[at] == 0,
        forall|i: int| from <= i < at ==> #[trigger] s[i] != 0,
    ensures
        zero_from(s, from) == at,
    decreases at - from,
{
    if from < at {
        lemma_zero_at(s, from + 1, at);
    }
}

} // verus!
