use vstd::prelude::*;

verus! {

/// A big-endian 16-bit word.
pub open spec fn be16(hi: u8, lo: u8) -> u16 {
    ((hi as u16) << 8u16) | (lo as u16)
}

/// A big-endian 32-bit word.
pub open spec fn be32(b0: u8, b1: u8, b2: u8, b3: u8) -> u32 {
    ((b0 as u32) << 24u32) | ((b1 as u32) << 16u32) | ((b2 as u32) << 8u32) | (b3 as u32)
}

/// The two big-endian bytes of a 16-bit word.
pub open spec fn u16_bytes(x: u16) -> Seq<u8> {
    seq![(x >> 8u16) as u8, x as u8]
}

/// The four big-endian bytes of a 32-bit word.
pub open spec fn u32_bytes(x: u32) -> Seq<u8> {
    seq![(x >> 24u32) as u8, (x >> 16u32) as u8, (x >> 8u32) as u8, x as u8]
}

/// Reads the big-endian word at `i`.
pub fn read_u16(buf: &[u8], i: usize) -> (r: u16)
    requires
        i + 2 <= buf@.len(),
    ensures
        r == be16(buf@[i as int], buf@[i + 1]),
{
    ((buf[i] as u16) << 8u16) | (buf[i + 1] as u16)
}

/// Reads the big-endian 32-bit word at `i`.
pub fn read_u32(buf: &[u8], i: usize) -> (r: u32)
    requires
        i + 4 <= buf@.len(),
    ensures
        r == be32(buf@[i as int], buf@[i + 1], buf@[i + 2], buf@[i + 3]),
{
    ((buf[i] as u32) << 24u32) | ((buf[i + 1] as u32) << 16u32) | ((buf[i + 2] as u32) << 8u32) | (
    buf[i + 3] as u32)
}

/// Appends the two big-endian bytes of `x`.
pub fn write_u16(w: &mut Vec<u8>, x: u16)
    ensures
        final(w)@ == old(w)@ + u16_bytes(x),
{
    let ghost before = w@;
    w.push((x >> 8u16) as u8);
    w.push(x as u8);
    assert(w@ =~= before + u16_bytes(x));
}

/// Appends the four big-endian bytes of `x`.
pub fn write_u32(w: &mut Vec<u8>, x: u32)
    ensures
        final(w)@ == old(w)@ + u32_bytes(x),
{
    let ghost before = w@;
    w.push((x >> 24u32) as u8);
    w.push((x >> 16u32) as u8);
    w.push((x >> 8u32) as u8);
    w.push(x as u8);
    assert(w@ =~= before + u32_bytes(x));
}

/// A 16-bit word reads back from its bytes.
pub proof fn lemma_u16_bytes(x: u16)
    ensures
        be16(u16_bytes(x)[0], u16_bytes(x)[1]) == x,
{
    assert(((((x >> 8u16) as u8) as u16) << 8u16) | ((x as u8) as u16) == x) by (bit_vector);
}

/// A 32-bit word reads back from its bytes.
pub proof fn lemma_u32_bytes(x: u32)
    ensures
        be32(u32_bytes(x)[0], u32_bytes(x)[1], u32_bytes(x)[2], u32_bytes(x)[3]) == x,
{
    assert(((((x >> 24u32) as u8) as u32) << 24u32) | ((((x >> 16u32) as u8) as u32) << 16u32) | ((
    ((x >> 8u32) as u8) as u32) << 8u32) | ((x as u8) as u32) == x) by (bit_vector);
}

/// A packet being read, and the offset reached so far. Compression pointers
/// are offsets into the whole packet, so the reader keeps all of it.
pub struct Reader<'a> {
    pub bytes: &'a [u8],
    pub pos: usize,
}

impl<'a> Reader<'a> {
    /// A reader at the start of `bytes`.
    pub fn new(bytes: &'a [u8]) -> (r: Reader<'a>)
        ensures
            r.bytes@ == bytes@,
            r.pos == 0,
    {
        Reader { bytes, pos: 0 }
    }
}

/// Where `b` stands in `buf` at `pos`, each part of `b` stands there too.
pub proof fn lemma_part_at(buf: Seq<u8>, pos: int, b: Seq<u8>, i: int, j: int)
    requires
        0 <= pos,
        pos + b.len() <= buf.len(),
        buf.subrange(pos, pos + b.len()) == b,
        0 <= i <= j <= b.len(),
    ensures
        buf.subrange(pos + i, pos + j) == b.subrange(i, j),
        forall|k: int| i <= k < j ==> buf[pos + k] == b[k],
{
    assert forall|k: int| i <= k < j implies buf[pos + k] == b[k] by {
        assert(buf.subrange(pos, pos + b.len())[k] == buf[pos + k]);
    }
    assert(buf.subrange(pos + i, pos + j) =~= b.subrange(i, j));
}

} // verus!
