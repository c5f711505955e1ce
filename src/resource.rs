use vstd::prelude::*;
use vstd::slice::{slice_subrange, slice_to_vec};

use crate::class::{self, class_canonical, class_code, class_of, Class};
use crate::error::{DecodeError, EncodeError};
use crate::name::{
    self, labels_fit, labels_view, lemma_name_wire_decodes, name_at, name_encoding, name_wire,
};
use crate::rrtype::{self, rrtype_canonical, rrtype_code, rrtype_of, RRType};
use crate::wire::{
    be16, be32, lemma_part_at, lemma_u16_bytes, lemma_u32_bytes, read_u16, read_u32, u16_bytes,
    u32_bytes, write_u16, write_u32, Reader,
};

verus! {

/// Record data: the four octets of an IPv4 address for records of type A, the
/// bytes as received for every other type.
#[derive(Clone, Debug, PartialEq)]
pub enum ResourceData {
    A(u8, u8, u8, u8),
    Raw(Vec<u8>),
}

/// What record data holds.
pub enum ResourceDataView {
    A(u8, u8, u8, u8),
    Raw(Seq<u8>),
}

impl View for ResourceData {
    type V = ResourceDataView;

    open spec fn view(&self) -> ResourceDataView {
        match self {
            ResourceData::A(a, b, c, d) => ResourceDataView::A(*a, *b, *c, *d),
            ResourceData::Raw(v) => ResourceDataView::Raw(v@),
        }
    }
}

/// The bytes of record data on the wire.
pub open spec fn rdata_bytes(d: ResourceDataView) -> Seq<u8> {
    match d {
        ResourceDataView::A(a, b, c, e) => seq![a, b, c, e],
        ResourceDataView::Raw(v) => v,
    }
}

/// A resource record. `rlength` is the data length that was read; writing a
/// record derives the length from the data instead.
#[derive(Clone, Debug, PartialEq)]
pub struct Resource {
    pub name: Vec<String>,
    pub rrtype: RRType,
    pub class: Class,
    pub ttl: u32,
    pub rlength: u16,
    pub rdata: ResourceData,
}

/// What a resource record holds, with each label as its characters.
pub struct ResourceView {
    pub name: Seq<Seq<char>>,
    pub rrtype: RRType,
    pub class: Class,
    pub ttl: u32,
    pub rlength: u16,
    pub rdata: ResourceDataView,
}

impl View for Resource {
    type V = ResourceView;

    open spec fn view(&self) -> ResourceView {
        ResourceView {
            name: labels_view(self.name@),
            rrtype: self.rrtype,
            class: self.class,
            ttl: self.ttl,
            rlength: self.rlength,
            rdata: self.rdata@,
        }
    }
}

/// The record encoded at `offset`, with the offset just past its data.
pub open spec fn resource_at(buf: Seq<u8>, offset: int) -> Result<(ResourceView, int), DecodeError> {
    match name_at(buf, offset) {
        Err(e) => Err(e),
        Ok((name, o)) => if o + 10 > buf.len() {
            Err(DecodeError::MalformedMessage)
        } else {
            let rrtype = rrtype_of(be16(buf[o], buf[o + 1]));
            let class = class_of(be16(buf[o + 2], buf[o + 3]));
            let ttl = be32(buf[o + 4], buf[o + 5], buf[o + 6], buf[o + 7]);
            let rlength = be16(buf[o + 8], buf[o + 9]);
            let d = o + 10;
            if d + rlength > buf.len() {
                Err(DecodeError::MalformedMessage)
            } else if rrtype == RRType::A && rlength != 4 {
                Err(DecodeError::MalformedMessage)
            } else {
                let rdata = if rrtype == RRType::A {
                    ResourceDataView::A(buf[d], buf[d + 1], buf[d + 2], buf[d + 3])
                } else {
                    ResourceDataView::Raw(buf.subrange(d, d + rlength))
                };
                Ok((ResourceView { name, rrtype, class, ttl, rlength, rdata }, d + rlength))
            }
        },
    }
}

/// Decodes the record at `offset`.
pub fn unpack(message: &[u8], offset: usize) -> (r: Result<(Resource, usize), DecodeError>)
    ensures
        match r {
            Ok((res, next)) => resource_at(message@, offset as int) == Ok::<_, DecodeError>(
                (res@, next as int),
            ),
            Err(e) => resource_at(message@, offset as int) == Err::<(ResourceView, int), DecodeError>(
                e,
            ),
        },
{
    let (name, o) = match name::unpack(message, offset) {
        Ok(v) => v,
        Err(e) => {
            return Err(e);
        },
    };
    if message.len() - o < 10 {
        return Err(DecodeError::MalformedMessage);
    }
    let rrtype = rrtype::unpack(read_u16(message, o));
    let class = class::unpack(read_u16(message, o + 2));
    let ttl = read_u32(message, o + 4);
    let rlength = read_u16(message, o + 8);
    let d = o + 10;
    if rlength as usize > message.len() - d {
        return Err(DecodeError::MalformedMessage);
    }
    let rdata = if rrtype == RRType::A {
        if rlength != 4 {
            return Err(DecodeError::MalformedMessage);
        }
        ResourceData::A(message[d], message[d + 1], message[d + 2], message[d + 3])
    } else {
        ResourceData::Raw(slice_to_vec(slice_subrange(message, d, d + rlength as usize)))
    };
    Ok((Resource { name, rrtype, class, ttl, rlength, rdata }, d + rlength as usize))
}

/// The bytes a record encodes to, or why it cannot be encoded. The length
/// field is that of the data.
pub open spec fn resource_encoding(r: ResourceView) -> Result<Seq<u8>, EncodeError> {
    match name_encoding(r.name) {
        Err(e) => Err(e),
        Ok(n) => {
            let data = rdata_bytes(r.rdata);
            if data.len() > 65535 {
                Err(EncodeError::RdataLength)
            } else {
                Ok(
                    n + u16_bytes(rrtype_code(r.rrtype)) + u16_bytes(class_code(r.class)) + u32_bytes(
                        r.ttl,
                    ) + u16_bytes(data.len() as u16) + data,
                )
            }
        },
    }
}

/// A record that can be written and reads back as itself: labels of 1 to 63
/// bytes, canonical codes, a length field that matches the data (so at most
/// 65535 bytes), and address data exactly for type A.
pub open spec fn resource_wf(r: ResourceView) -> bool {
    &&& labels_fit(r.name)
    &&& rrtype_canonical(r.rrtype)
    &&& class_canonical(r.class)
    &&& r.rlength == rdata_bytes(r.rdata).len()
    &&& (r.rrtype == RRType::A <==> r.rdata is A)
}

impl Resource {
    /// Decodes the record at the reader's offset and moves the reader past it;
    /// on error the reader stays where it was.
    pub fn from_reader(r: &mut Reader) -> (res: Result<Resource, DecodeError>)
        ensures
            final(r).bytes == old(r).bytes,
            match res {
                Ok(x) => resource_at(old(r).bytes@, old(r).pos as int) == Ok::<_, DecodeError>(
                    (x@, final(r).pos as int),
                ),
                Err(e) => resource_at(old(r).bytes@, old(r).pos as int) == Err::<
                    (ResourceView, int),
                    DecodeError,
                >(e) && final(r).pos == old(r).pos,
            },
    {
        match unpack(r.bytes, r.pos) {
            Ok((x, next)) => {
                r.pos = next;
                Ok(x)
            },
            Err(e) => Err(e),
        }
    }

    /// Appends the record: name in full, type, class, ttl, then the data
    /// behind its length. On error nothing is written.
    pub fn write_to(&self, w: &mut Vec<u8>) -> (res: Result<(), EncodeError>)
        ensures
            match resource_encoding(self@) {
                Ok(bytes) => res is Ok && final(w)@ == old(w)@ + bytes,
                Err(e) => res == Err::<(), EncodeError>(e) && final(w)@ == old(w)@,
            },
    {
        let ghost start = w@;
        let start_len = w.len();
        match name::pack(&self.name, w) {
            Ok(()) => {},
            Err(e) => {
                return Err(e);
            },
        }
        let len: usize = match &self.rdata {
            ResourceData::A(..) => 4,
            ResourceData::Raw(v) => v.len(),
        };
        if len > 65535 {
            w.truncate(start_len);
            assert(w@ =~= start);
            return Err(EncodeError::RdataLength);
        }
        write_u16(w, self.rrtype.code());
        write_u16(w, self.class.code());
        write_u32(w, self.ttl);
        write_u16(w, len as u16);
        match &self.rdata {
            ResourceData::A(a, b, c, d) => {
                let ghost before = w@;
                w.push(*a);
                w.push(*b);
                w.push(*c);
                w.push(*d);
                assert(w@ =~= before + rdata_bytes(self.rdata@));
            },
            ResourceData::Raw(v) => {
                w.extend_from_slice(v.as_slice());
            },
        }
        Ok(())
    }
}

/// A well-formed record written at `pos` reads back as itself and ends where
/// its bytes end.
pub proof fn lemma_resource_round_trip(buf: Seq<u8>, pos: int, r: ResourceView)
    requires
        0 <= pos,
        resource_wf(r),
        pos + resource_encoding(r)->Ok_0.len() <= buf.len(),
        buf.subrange(pos, pos + resource_encoding(r)->Ok_0.len()) == resource_encoding(r)->Ok_0,
    ensures
        resource_encoding(r) is Ok,
        resource_at(buf, pos) == Ok::<_, DecodeError>(
            (r, pos + resource_encoding(r)->Ok_0.len()),
        ),
{
    let nw = name_wire(r.name);
    let data = rdata_bytes(r.rdata);
    let t = u16_bytes(rrtype_code(r.rrtype));
    let c = u16_bytes(class_code(r.class));
    let l = u32_bytes(r.ttl);
    let k = u16_bytes(data.len() as u16);
    let b = nw + t + c + l + k + data;
    assert(resource_encoding(r)->Ok_0 == b);
    let n = nw.len() as int;
    lemma_part_at(buf, pos, b, 0, n);
    assert(b.subrange(0, n) =~= nw);
    lemma_part_at(buf, pos, b, n, b.len() as int);
    lemma_part_at(buf, pos, b, n + 10, b.len() as int);
    assert(b.subrange(n + 10, b.len() as int) =~= data);
    lemma_name_wire_decodes(buf, pos, pos, r.name);
    lemma_u16_bytes(rrtype_code(r.rrtype));
    lemma_u16_bytes(class_code(r.class));
    lemma_u32_bytes(r.ttl);
    lemma_u16_bytes(data.len() as u16);
    let o = pos + n;
    assert(buf[o] == t[0] && buf[o + 1] == t[1] && buf[o + 2] == c[0] && buf[o + 3] == c[1]) by {
        assert(b[n] == t[0]);
        assert(b[n + 1] == t[1]);
        assert(b[n + 2] == c[0]);
        assert(b[n + 3] == c[1]);
    }
    assert(buf[o + 4] == l[0] && buf[o + 5] == l[1] && buf[o + 6] == l[2] && buf[o + 7] == l[3])
        by {
        assert(b[n + 4] == l[0]);
        assert(b[n + 5] == l[1]);
        assert(b[n + 6] == l[2]);
        assert(b[n + 7] == l[3]);
    }
    assert(buf[o + 8] == k[0] && buf[o + 9] == k[1]) by {
        assert(b[n + 8] == k[0]);
        assert(b[n + 9] == k[1]);
    }
    let d = o + 10;
    if r.rrtype == RRType::A {
        assert(buf[d] == data[0] && buf[d + 1] == data[1] && buf[d + 2] == data[2] && buf[d + 3]
            == data[3]) by {
            assert(buf.subrange(d, d + data.len())[0] == buf[d]);
            assert(buf.subrange(d, d + data.len())[1] == buf[d + 1]);
            assert(buf.subrange(d, d + data.len())[2] == buf[d + 2]);
            assert(buf.subrange(d, d + data.len())[3] == buf[d + 3]);
        }
    }
}

} // verus!
