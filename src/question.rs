use vstd::prelude::*;

use crate::class::{self, class_canonical, class_code, class_of, Class};
use crate::error::{DecodeError, EncodeError};
use crate::name::{
    self, labels_fit, labels_view, lemma_name_wire_decodes, name_at, name_encoding, name_wire,
};
use crate::rrtype::{self, rrtype_canonical, rrtype_code, rrtype_of, RRType};
use crate::wire::{be16, lemma_part_at, lemma_u16_bytes, read_u16, u16_bytes, write_u16, Reader};

verus! {

/// One entry of the question section: a name, a record type and a class.
#[derive(Clone, Debug, PartialEq)]
pub struct Question {
    pub name: Vec<String>,
    pub rrtype: RRType,
    pub class: Class,
}

/// What a question holds, with each label as its characters.
pub struct QuestionView {
    pub name: Seq<Seq<char>>,
    pub rrtype: RRType,
    pub class: Class,
}

impl View for Question {
    type V = QuestionView;

    open spec fn view(&self) -> QuestionView {
        QuestionView { name: labels_view(self.name@), rrtype: self.rrtype, class: self.class }
    }
}

/// The question encoded at `offset`, with the offset just past it.
pub open spec fn question_at(buf: Seq<u8>, offset: int) -> Result<(QuestionView, int), DecodeError> {
    match name_at(buf, offset) {
        Err(e) => Err(e),
        Ok((name, o)) => if o + 4 > buf.len() {
            Err(DecodeError::MalformedMessage)
        } else {
            Ok(
                (
                    QuestionView {
                        name,
                        rrtype: rrtype_of(be16(buf[o], buf[o + 1])),
                        class: class_of(be16(buf[o + 2], buf[o + 3])),
                    },
                    o + 4,
                ),
            )
        },
    }
}

/// Decodes the question at `offset`.
pub fn unpack(message: &[u8], offset: usize) -> (r: Result<(Question, usize), DecodeError>)
    ensures
        match r {
            Ok((q, next)) => question_at(message@, offset as int) == Ok::<_, DecodeError>(
                (q@, next as int),
            ),
            Err(e) => question_at(message@, offset as int) == Err::<(QuestionView, int), DecodeError>(
                e,
            ),
        },
{
    let (name, o) = match name::unpack(message, offset) {
        Ok(v) => v,
        Err(e) => {
            return Err(e);
        },
    };
    if message.len() - o < 4 {
        return Err(DecodeError::MalformedMessage);
    }
    let rrtype = rrtype::unpack(read_u16(message, o));
    let class = class::unpack(read_u16(message, o + 2));
    Ok((Question { name, rrtype, class }, o + 4))
}

/// The bytes a question encodes to, or why it cannot be encoded.
pub open spec fn question_encoding(q: QuestionView) -> Result<Seq<u8>, EncodeError> {
    match name_encoding(q.name) {
        Err(e) => Err(e),
        Ok(n) => Ok(n + u16_bytes(rrtype_code(q.rrtype)) + u16_bytes(class_code(q.class))),
    }
}

/// A question that can be written and reads back as itself: labels of 1 to
/// 63 bytes and canonical codes.
pub open spec fn question_wf(q: QuestionView) -> bool {
    labels_fit(q.name) && rrtype_canonical(q.rrtype) && class_canonical(q.class)
}

impl Question {
    /// Decodes the question at the reader's offset and moves the reader past
    /// it; on error the reader stays where it was.
    pub fn from_reader(r: &mut Reader) -> (res: Result<Question, DecodeError>)
        ensures
            final(r).bytes == old(r).bytes,
            match res {
                Ok(q) => question_at(old(r).bytes@, old(r).pos as int) == Ok::<_, DecodeError>(
                    (q@, final(r).pos as int),
                ),
                Err(e) => question_at(old(r).bytes@, old(r).pos as int) == Err::<
                    (QuestionView, int),
                    DecodeError,
                >(e) && final(r).pos == old(r).pos,
            },
    {
        match unpack(r.bytes, r.pos) {
            Ok((q, next)) => {
                r.pos = next;
                Ok(q)
            },
            Err(e) => Err(e),
        }
    }

    /// Appends the question: its name in full, then its type and class codes.
    /// On error nothing is written.
    pub fn write_to(&self, w: &mut Vec<u8>) -> (res: Result<(), EncodeError>)
        ensures
            match question_encoding(self@) {
                Ok(bytes) => res is Ok && final(w)@ == old(w)@ + bytes,
                Err(e) => res == Err::<(), EncodeError>(e) && final(w)@ == old(w)@,
            },
    {
        match name::pack(&self.name, w) {
            Ok(()) => {},
            Err(e) => {
                return Err(e);
            },
        }
        write_u16(w, self.rrtype.code());
        write_u16(w, self.class.code());
        Ok(())
    }
}

/// A well-formed question written at `pos` reads back as itself and ends
/// where its bytes end.
pub proof fn lemma_question_round_trip(buf: Seq<u8>, pos: int, q: QuestionView)
    requires
        0 <= pos,
        question_wf(q),
        pos + question_encoding(q)->Ok_0.len() <= buf.len(),
        buf.subrange(pos, pos + question_encoding(q)->Ok_0.len()) == question_encoding(q)->Ok_0,
    ensures
        question_encoding(q) is Ok,
        question_at(buf, pos) == Ok::<_, DecodeError>(
            (q, pos + question_encoding(q)->Ok_0.len()),
        ),
{
    let nw = name_wire(q.name);
    let t = u16_bytes(rrtype_code(q.rrtype));
    let c = u16_bytes(class_code(q.class));
    let b = nw + t + c;
    assert(question_encoding(q)->Ok_0 == b);
    lemma_part_at(buf, pos, b, 0, nw.len() as int);
    assert(b.subrange(0, nw.len() as int) =~= nw);
    lemma_part_at(buf, pos, b, nw.len() as int, b.len() as int);
    lemma_name_wire_decodes(buf, pos, pos, q.name);
    lemma_u16_bytes(rrtype_code(q.rrtype));
    lemma_u16_bytes(class_code(q.class));
    let n = nw.len() as int;
    let o = pos + n;
    assert(buf[o] == t[0] && buf[o + 1] == t[1] && buf[o + 2] == c[0] && buf[o + 3] == c[1]) by {
        assert(b[n] == t[0]);
        assert(b[n + 1] == t[1]);
        assert(b[n + 2] == c[0]);
        assert(b[n + 3] == c[1]);
    }
}

} // verus!
