//! Fixed-width integers in little-endian and network (big-endian) order.

use vstd::prelude::*;

verus! {

/// `n` in little-endian order.
pub open spec fn le16(n: u16) -> Seq<u8> {
    seq![(n % 256) as u8, (n / 256) as u8]
}

/// `n` in little-endian order.
pub open spec fn le32(n: u32) -> Seq<u8> {
    seq![
        (n % 256) as u8,
        (n / 256 % 256) as u8,
        (n / 65536 % 256) as u8,
        (n / 16777216) as u8,
    ]
}

/// `n` in network order.
pub open spec fn be16(n: u16) -> Seq<u8> {
    seq![(n / 256) as u8, (n % 256) as u8]
}

/// `n` in network order.
pub open spec fn be32(n: u32) -> Seq<u8> {
    seq![
        (n / 16777216) as u8,
        (n / 65536 % 256) as u8,
        (n / 256 % 256) as u8,
        (n % 256) as u8,
    ]
}

/// The number that two bytes at `at` hold in little-endian order.
pub open spec fn le16_at(s: Seq<u8>, at: int) -> u16 {
    (s[at] + 256 * s[at + 1]) as u16
}

/// The number that four bytes at `at` hold in little-endian order.
pub open spec fn le32_at(s: Seq<u8>, at: int) -> u32 {
    (s[at] + 256 * s[at + 1] + 65536 * s[at + 2] + 16777216 * s[at + 3]) as u32
}

/// The signed number that four bytes at `at` hold in little-endian two's complement.
pub open spec fn le_i32_at(s: Seq<u8>, at: int) -> int {
    let n = le32_at(s, at);
    if n < 0x8000_0000 {
        n as int
    } else {
        n - 0x1_0000_0000
    }
}

/// The number that four bytes at `at` hold in network order.
pub open spec fn be32_at(s: Seq<u8>, at: int) -> u32 {
    (16777216 * s[at] + 65536 * s[at + 1] + 256 * s[at + 2] + s[at + 3]) as u32
}

/// Appends `bytes`.
pub fn push_bytes(buf: &mut Vec<u8>, bytes: &[u8])
    ensures
        final(buf)@ == old(buf)@ + bytes@,
{
    buf.extend_from_slice(bytes);
    assert(buf@ =~= old(buf)@ + bytes@);
}

/// Appends `n` in little-endian order.
pub fn push_le16(buf: &mut Vec<u8>, n: u16)
    ensures
        final(buf)@ == old(buf)@ + le16(n),
{
    buf.push((n % 256) as u8);
    buf.push((n / 256) as u8);
    assert(buf@ =~= old(buf)@ + le16(n));
}

/// Appends `n` in little-endian order.
pub fn push_le32(buf: &mut Vec<u8>, n: u32)
    ensures
        final(buf)@ == old(buf)@ + le32(n),
{
    buf.push((n % 256) as u8);
    buf.push((n / 256 % 256) as u8);
    buf.push((n / 65536 % 256) as u8);
    buf.push((n / 16777216) as u8);
    assert(buf@ =~= old(buf)@ + le32(n));
}

/// Appends `n` in network order.
pub fn push_be16(buf: &mut Vec<u8>, n: u16)
    ensures
        final(buf)@ == old(buf)@ + be16(n),
{
    buf.push((n / 256) as u8);
    buf.push((n % 256) as u8);
    assert(buf@ =~= old(buf)@ + be16(n));
}

/// Appends `n` in network order.
pub fn push_be32(buf: &mut Vec<u8>, n: u32)
    ensures
        final(buf)@ == old(buf)@ + be32(n),
{
    buf.push((n / 16777216) as u8);
    buf.push((n / 65536 % 256) as u8);
    buf.push((n / 256 % 256) as u8);
    buf.push((n % 256) as u8);
    assert(buf@ =~= old(buf)@ + be32(n));
}

/// Appends `count` zero bytes.
pub fn push_zeros(buf: &mut Vec<u8>, count: usize)
    ensures
        final(buf)@ == old(buf)@ + Seq::new(count as nat, |i: int| 0u8),
{
    let ghost was = buf@;
    let mut i: usize = 0;
    assert(buf@ =~= was + Seq::new(0, |j: int| 0u8));
    while i < count
        invariant
            i <= count,
            buf@ == was + Seq::new(i as nat, |j: int| 0u8),
        decreases count - i,
    {
        buf.push(0);
        i = i + 1;
        assert(buf@ =~= was + Seq::new(i as nat, |j: int| 0u8));
    }
}

/// Reads two bytes at `at` in little-endian order.
pub fn read_le16(buf: &[u8], at: usize) -> (r: u16)
    requires
        at + 2 <= buf@.len(),
    ensures
        r == le16_at(buf@, at as int),
{
    buf[at] as u16 + 256 * buf[at + 1] as u16
}

/// Reads four bytes at `at` in little-endian order.
pub fn read_le32(buf: &[u8], at: usize) -> (r: u32)
    requires
        at + 4 <= buf@.len(),
    ensures
        r == le32_at(buf@, at as int),
{
    buf[at] as u32 + 256 * buf[at + 1] as u32 + 65536 * buf[at + 2] as u32 + 16777216 * buf[at
        + 3] as u32
}

/// Reads four bytes at `at` in network order.
pub fn read_be32(buf: &[u8], at: usize) -> (r: u32)
    requires
        at + 4 <= buf@.len(),
    ensures
        r == be32_at(buf@, at as int),
{
    16777216 * buf[at] as u32 + 65536 * buf[at + 1] as u32 + 256 * buf[at + 2] as u32 + buf[at
        + 3] as u32
}

/// What is written in either order reads back as the number written.
pub proof fn law_integers_read_back(n: u16, m: u32)
    ensures
        le16_at(le16(n), 0) == n,
        le32_at(le32(m), 0) == m,
        be32_at(be32(m), 0) == m,
{
}

/// A number that stands at `at` reads back.
pub proof fn lemma_le16_stands(s: Seq<u8>, at: int, n: u16)
    requires
        0 <= at,
        at + 2 <= s.len(),
        s.subrange(at, at + 2) == le16(n),
    ensures
        le16_at(s, at) == n,
{
    let part = s.subrange(at, at + 2);
    assert(s[at] == part[0] && s[at + 1] == part[1]);
    law_integers_read_back(n, 0);
}

/// A number that stands at `at` reads back.
pub proof fn lemma_le32_stands(s: Seq<u8>, at: int, n: u32)
    requires
        0 <= at,
        at + 4 <= s.len(),
        s.subrange(at, at + 4) == le32(n),
    ensures
        le32_at(s, at) == n,
{
    let part = s.subrange(at, at + 4);
    assert(s[at] == part[0] && s[at + 1] == part[1] && s[at + 2] == part[2] && s[at + 3]
        == part[3]);
    law_integers_read_back(0, n);
}

proof fn lemma_be32_digits(a: u8, b: u8, c: u8, d: u8)
    ensures
        ({
            let n = 16777216 * a + 65536 * b + 256 * c + d;
            &&& n <= u32::MAX
            &&& n / 16777216 == a
            &&& n / 65536 % 256 == b
            &&& n / 256 % 256 == c
            &&& n % 256 == d
        }),
{
    let n = 16777216 * a + 65536 * b + 256 * c + d;
    assert(n / 65536 == 256 * a + b);
    assert(n / 256 == 65536 * a + 256 * b + c);
}

/// Four bytes are determined by the number they hold in network order.
pub proof fn law_be32_determines_bytes(s: Seq<u8>, at: int)
    requires
        0 <= at,
        at + 4 <= s.len(),
    ensures
        s.subrange(at, at + 4) == be32(be32_at(s, at)),
{
    lemma_be32_digits(s[at], s[at + 1], s[at + 2], s[at + 3]);
    let n = be32_at(s, at);
    assert(s.subrange(at, at + 4) =~= be32(n));
}

/// In little-endian order the byte at place `k` counts `256` to the power of `k`; in network
/// order the last byte counts one, and each byte before it 256 times as much.
pub proof fn law_bytes_have_their_weights(n: u16, m: u32, s: Seq<u8>, at: int)
    requires
        0 <= at,
        at + 4 <= s.len(),
    ensures
        le16(n).len() == 2 && be16(n).len() == 2 && le32(m).len() == 4 && be32(m).len() == 4,
        n == le16(n)[0] + 256 * le16(n)[1],
        n == 256 * be16(n)[0] + be16(n)[1],
        m == le32(m)[0] + 256 * (le32(m)[1] + 256 * (le32(m)[2] + 256 * le32(m)[3])),
        m == be32(m)[3] + 256 * (be32(m)[2] + 256 * (be32(m)[1] + 256 * be32(m)[0])),
        le16_at(s, at) == s[at] + 256 * s[at + 1],
        le32_at(s, at) == s[at] + 256 * (s[at + 1] + 256 * (s[at + 2] + 256 * s[at + 3])),
        be32_at(s, at) == s[at + 3] + 256 * (s[at + 2] + 256 * (s[at + 1] + 256 * s[at])),
{
}

/// A signed number is the one in its range that the unsigned number differs from by a multiple of
/// the number of words.
pub proof fn law_signed_words_wrap(s: Seq<u8>, at: int)
    requires
        0 <= at,
        at + 4 <= s.len(),
    ensures
        i32::MIN <= le_i32_at(s, at) <= i32::MAX,
        (le32_at(s, at) - le_i32_at(s, at)) % 0x1_0000_0000 == 0,
{
}

} // verus!
