use vstd::prelude::*;

use crate::error::DecodeError;
use crate::op::{self, op_canonical, op_code, op_of, Op};
use crate::rcode::{self, rcode_canonical, rcode_code, rcode_of, ResponseCode};
use vstd::slice::slice_subrange;

use crate::wire::{be16, lemma_u16_bytes, read_u16, u16_bytes, write_u16, Reader};

verus! {

/// Whether a message is a query or a response.
#[derive(Clone, Copy, Debug, PartialEq, Eq, Structural)]
pub enum QueryResponse {
    Query,
    Response,
}

impl Default for QueryResponse {
    fn default() -> (r: QueryResponse)
        ensures
            r == QueryResponse::Query,
    {
        QueryResponse::Query
    }
}

/// The identifier and flags of a message. The section counts are not kept
/// here: they follow from the sections themselves.
#[derive(Clone, Copy, Debug, PartialEq, Eq, Structural)]
pub struct Header {
    pub id: u16,
    pub qr: QueryResponse,
    pub op: Op,
    pub aa: bool,
    pub tr: bool,
    pub rd: bool,
    pub ra: bool,
    pub reserved: bool,
    pub ad: bool,
    pub cd: bool,
    pub rcode: ResponseCode,
}

impl Default for Header {
    fn default() -> (r: Header)
        ensures
            r == (Header {
                id: 0,
                qr: QueryResponse::Query,
                op: Op::Query,
                aa: false,
                tr: false,
                rd: false,
                ra: false,
                reserved: false,
                ad: false,
                cd: false,
                rcode: ResponseCode::NoError,
            }),
    {
        Header {
            id: 0,
            qr: QueryResponse::Query,
            op: Op::Query,
            aa: false,
            tr: false,
            rd: false,
            ra: false,
            reserved: false,
            ad: false,
            cd: false,
            rcode: ResponseCode::NoError,
        }
    }
}

/// The header held by an identifier word and the two flag bytes: the first
/// flag byte holds QR, the opcode, AA, TC and RD from its top bit down; the
/// second holds RA, the reserved bit, AD, CD and the response code.
pub open spec fn header_of(id_hi: u8, id_lo: u8, f0: u8, f1: u8) -> Header {
    Header {
        id: be16(id_hi, id_lo),
        qr: if f0 & 0x80 != 0 {
            QueryResponse::Response
        } else {
            QueryResponse::Query
        },
        op: op_of((f0 & 0x78) >> 3u8),
        aa: f0 & 0x04 != 0,
        tr: f0 & 0x02 != 0,
        rd: f0 & 0x01 != 0,
        ra: f1 & 0x80 != 0,
        reserved: f1 & 0x40 != 0,
        ad: f1 & 0x20 != 0,
        cd: f1 & 0x10 != 0,
        rcode: rcode_of((f1 & 0x0F) as u16),
    }
}

/// The header at the start of a buffer and the offset after its first four
/// bytes.
pub open spec fn header_at(buf: Seq<u8>) -> Result<(Header, int), DecodeError> {
    if buf.len() < 4 {
        Err(DecodeError::MalformedMessage)
    } else {
        Ok((header_of(buf[0], buf[1], buf[2], buf[3]), 4))
    }
}

/// Decodes the identifier and flags at the start of `message`.
pub fn unpack(message: &[u8]) -> (r: Result<(Header, usize), DecodeError>)
    ensures
        match r {
            Ok((h, next)) => header_at(message@) == Ok::<_, DecodeError>((h, next as int)),
            Err(e) => header_at(message@) == Err::<(Header, int), DecodeError>(e),
        },
{
    if message.len() < 4 {
        return Err(DecodeError::MalformedMessage);
    }
    let f0 = message[2];
    let f1 = message[3];
    let h = Header {
        id: read_u16(message, 0),
        qr: if f0 & 0x80 != 0 {
            QueryResponse::Response
        } else {
            QueryResponse::Query
        },
        op: op::unpack((f0 & 0x78) >> 3u8),
        aa: f0 & 0x04 != 0,
        tr: f0 & 0x02 != 0,
        rd: f0 & 0x01 != 0,
        ra: f1 & 0x80 != 0,
        reserved: f1 & 0x40 != 0,
        ad: f1 & 0x20 != 0,
        cd: f1 & 0x10 != 0,
        rcode: rcode::unpack((f1 & 0x0F) as u16),
    };
    Ok((h, 4))
}

/// One flag bit: `bit` when set.
pub open spec fn bit(set: bool, bit: u8) -> u8 {
    if set {
        bit
    } else {
        0
    }
}

/// The first flag byte written for a header.
pub open spec fn flags_high(h: Header) -> u8 {
    bit(h.qr == QueryResponse::Response, 0x80) | ((op_code(h.op) & 0x0F) << 3u8) | bit(h.aa, 0x04)
        | bit(h.tr, 0x02) | bit(h.rd, 0x01)
}

/// The second flag byte written for a header; the reserved bit is always zero.
pub open spec fn flags_low(h: Header) -> u8 {
    bit(h.ra, 0x80) | bit(h.ad, 0x20) | bit(h.cd, 0x10) | ((rcode_code(h.rcode) & 0x0F) as u8)
}

/// The four bytes written for a header.
pub open spec fn header_wire(h: Header) -> Seq<u8> {
    u16_bytes(h.id) + seq![flags_high(h), flags_low(h)]
}

/// A header that survives being written and read back: the reserved bit is
/// clear, and the opcode and response code are canonical and fit in four bits.
pub open spec fn header_wf(h: Header) -> bool {
    &&& !h.reserved
    &&& op_canonical(h.op)
    &&& op_code(h.op) < 16
    &&& rcode_canonical(h.rcode)
    &&& rcode_code(h.rcode) < 16
}

/// The header at `pos` in a buffer, with its length.
pub open spec fn header_from(buf: Seq<u8>, pos: int) -> Result<(Header, int), DecodeError> {
    if pos > buf.len() {
        Err(DecodeError::MalformedMessage)
    } else {
        header_at(buf.subrange(pos, buf.len() as int))
    }
}

impl Header {
    /// Decodes the identifier and flags at the reader's offset and moves the
    /// reader past them; on error the reader stays where it was.
    pub fn from_reader(r: &mut Reader) -> (res: Result<Header, DecodeError>)
        ensures
            final(r).bytes == old(r).bytes,
            match res {
                Ok(h) => header_from(old(r).bytes@, old(r).pos as int) == Ok::<_, DecodeError>(
                    (h, 4int),
                ) && final(r).pos == old(r).pos + 4,
                Err(e) => header_from(old(r).bytes@, old(r).pos as int) == Err::<
                    (Header, int),
                    DecodeError,
                >(e) && final(r).pos == old(r).pos,
            },
    {
        if r.pos > r.bytes.len() {
            return Err(DecodeError::MalformedMessage);
        }
        match unpack(slice_subrange(r.bytes, r.pos, r.bytes.len())) {
            Ok((h, n)) => {
                r.pos = r.pos + n;
                Ok(h)
            },
            Err(e) => Err(e),
        }
    }

    /// Appends the identifier and the two flag bytes. The section counts are
    /// written by the message, from the sections.
    pub fn write_to(&self, w: &mut Vec<u8>)
        ensures
            final(w)@ == old(w)@ + header_wire(*self),
    {
        let hi: u8 = (if self.qr == QueryResponse::Response {
            0x80u8
        } else {
            0u8
        }) | ((self.op.code() & 0x0F) << 3u8) | (if self.aa {
            0x04u8
        } else {
            0u8
        }) | (if self.tr {
            0x02u8
        } else {
            0u8
        }) | (if self.rd {
            0x01u8
        } else {
            0u8
        });
        let lo: u8 = (if self.ra {
            0x80u8
        } else {
            0u8
        }) | (if self.ad {
            0x20u8
        } else {
            0u8
        }) | (if self.cd {
            0x10u8
        } else {
            0u8
        }) | ((self.rcode.code() & 0x0F) as u8);
        let ghost before = w@;
        write_u16(w, self.id);
        w.push(hi);
        w.push(lo);
        assert(w@ =~= before + header_wire(*self));
    }
}

proof fn lemma_high_bits(q: u8, o: u8, a: u8, t: u8, r: u8)
    requires
        q == 0 || q == 0x80,
        o < 16,
        a == 0 || a == 4,
        t == 0 || t == 2,
        r == 0 || r == 1,
    ensures
        (q | (o << 3u8) | a | t | r) & 0x80 == q,
        ((q | (o << 3u8) | a | t | r) & 0x78) >> 3u8 == o,
        (q | (o << 3u8) | a | t | r) & 0x04 == a,
        (q | (o << 3u8) | a | t | r) & 0x02 == t,
        (q | (o << 3u8) | a | t | r) & 0x01 == r,
{
    assert((q | (o << 3u8) | a | t | r) & 0x80 == q) by (bit_vector)
        requires
            q == 0 || q == 0x80,
            o < 16,
            a == 0 || a == 4,
            t == 0 || t == 2,
            r == 0 || r == 1,
    ;
    assert(((q | (o << 3u8) | a | t | r) & 0x78) >> 3u8 == o) by (bit_vector)
        requires
            q == 0 || q == 0x80,
            o < 16,
            a == 0 || a == 4,
            t == 0 || t == 2,
            r == 0 || r == 1,
    ;
    assert((q | (o << 3u8) | a | t | r) & 0x04 == a) by (bit_vector)
        requires
            q == 0 || q == 0x80,
            o < 16,
            a == 0 || a == 4,
            t == 0 || t == 2,
            r == 0 || r == 1,
    ;
    assert((q | (o << 3u8) | a | t | r) & 0x02 == t) by (bit_vector)
        requires
            q == 0 || q == 0x80,
            o < 16,
            a == 0 || a == 4,
            t == 0 || t == 2,
            r == 0 || r == 1,
    ;
    assert((q | (o << 3u8) | a | t | r) & 0x01 == r) by (bit_vector)
        requires
            q == 0 || q == 0x80,
            o < 16,
            a == 0 || a == 4,
            t == 0 || t == 2,
            r == 0 || r == 1,
    ;
}

proof fn lemma_low_bits(a: u8, d: u8, c: u8, k: u8)
    requires
        a == 0 || a == 0x80,
        d == 0 || d == 0x20,
        c == 0 || c == 0x10,
        k < 16,
    ensures
        (a | d | c | k) & 0x80 == a,
        (a | d | c | k) & 0x40 == 0,
        (a | d | c | k) & 0x20 == d,
        (a | d | c | k) & 0x10 == c,
        (a | d | c | k) & 0x0F == k,
{
    assert((a | d | c | k) & 0x80 == a && (a | d | c | k) & 0x40 == 0 && (a | d | c | k) & 0x20
        == d && (a | d | c | k) & 0x10 == c && (a | d | c | k) & 0x0F == k) by (bit_vector)
        requires
            a == 0 || a == 0x80,
            d == 0 || d == 0x20,
            c == 0 || c == 0x10,
            k < 16,
    ;
}

/// A well-formed header written by `write_to` reads back as itself, and takes
/// exactly four bytes.
pub proof fn lemma_header_round_trip(h: Header)
    requires
        header_wf(h),
    ensures
        header_at(header_wire(h)) == Ok::<_, DecodeError>((h, 4int)),
{
    let o = op_code(h.op);
    let k = rcode_code(h.rcode);
    assert(o & 0x0F == o) by (bit_vector)
        requires
            o < 16,
    ;
    assert(k & 0x0F == k) by (bit_vector)
        requires
            k < 16,
    ;
    lemma_high_bits(
        bit(h.qr == QueryResponse::Response, 0x80),
        o,
        bit(h.aa, 0x04),
        bit(h.tr, 0x02),
        bit(h.rd, 0x01),
    );
    lemma_low_bits(bit(h.ra, 0x80), bit(h.ad, 0x20), bit(h.cd, 0x10), k as u8);
    lemma_u16_bytes(h.id);
    let w = header_wire(h);
    let g = header_of(w[0], w[1], w[2], w[3]);
    assert(g.id == h.id);
    assert(g.qr == h.qr);
    assert(g == h);
}

} // verus!
