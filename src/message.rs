use vstd::prelude::*;

use crate::error::{DecodeError, EncodeError};
use crate::header::{self, header_at, header_wf, header_wire, lemma_header_round_trip, Header};
use crate::question::{
    self, lemma_question_round_trip, question_at, question_encoding, question_wf, Question,
    QuestionView,
};
use crate::resource::{
    self, lemma_resource_round_trip, resource_at, resource_encoding, resource_wf, Resource,
    ResourceView,
};
use crate::wire::{be16, lemma_part_at, lemma_u16_bytes, read_u16, u16_bytes, write_u16, Reader};

verus! {

/// A whole message: header and the four sections in order. The section
/// counts on the wire are derived from the lengths of the sections.
#[derive(Clone, Debug, PartialEq)]
pub struct Message {
    pub header: Header,
    pub questions: Vec<Question>,
    pub answers: Vec<Resource>,
    pub authority: Vec<Resource>,
    pub additional: Vec<Resource>,
}

/// What a message holds.
pub struct MessageView {
    pub header: Header,
    pub questions: Seq<QuestionView>,
    pub answers: Seq<ResourceView>,
    pub authority: Seq<ResourceView>,
    pub additional: Seq<ResourceView>,
}

/// The views of a sequence of questions.
pub open spec fn questions_view(s: Seq<Question>) -> Seq<QuestionView> {
    s.map_values(|q: Question| q@)
}

/// The views of a sequence of records.
pub open spec fn resources_view(s: Seq<Resource>) -> Seq<ResourceView> {
    s.map_values(|r: Resource| r@)
}

impl View for Message {
    type V = MessageView;

    open spec fn view(&self) -> MessageView {
        MessageView {
            header: self.header,
            questions: questions_view(self.questions@),
            answers: resources_view(self.answers@),
            authority: resources_view(self.authority@),
            additional: resources_view(self.additional@),
        }
    }
}

/// How one item is read at an offset.
pub type ItemReader<T> = spec_fn(Seq<u8>, int) -> Result<(T, int), DecodeError>;

/// How one item is written.
pub type ItemWriter<T> = spec_fn(T) -> Result<Seq<u8>, EncodeError>;

/// Reads a question at an offset.
pub open spec fn question_reader() -> ItemReader<QuestionView> {
    |b: Seq<u8>, o: int| question_at(b, o)
}

/// Reads a record at an offset.
pub open spec fn resource_reader() -> ItemReader<ResourceView> {
    |b: Seq<u8>, o: int| resource_at(b, o)
}

/// Writes a question.
pub open spec fn question_writer() -> ItemWriter<QuestionView> {
    |q: QuestionView| question_encoding(q)
}

/// Writes a record.
pub open spec fn resource_writer() -> ItemWriter<ResourceView> {
    |r: ResourceView| resource_encoding(r)
}

/// `count` items read one after another from `offset`, with the offset after
/// the last; the first failure decides the error.
pub open spec fn items_at<T>(buf: Seq<u8>, offset: int, count: nat, item: ItemReader<T>) -> Result<
    (Seq<T>, int),
    DecodeError,
>
    decreases count,
{
    if count == 0 {
        Ok((seq![], offset))
    } else {
        match items_at(buf, offset, (count - 1) as nat, item) {
            Err(e) => Err(e),
            Ok((s, o)) => match item(buf, o) {
                Err(e) => Err(e),
                Ok((x, next)) => Ok((s.push(x), next)),
            },
        }
    }
}

/// The items written one after another; the first failure decides the error.
pub open spec fn items_encoding<T>(s: Seq<T>, item: ItemWriter<T>) -> Result<Seq<u8>, EncodeError>
    decreases s.len(),
{
    if s.len() == 0 {
        Ok(seq![])
    } else {
        match items_encoding(s.drop_last(), item) {
            Err(e) => Err(e),
            Ok(b) => match item(s.last()) {
                Err(e) => Err(e),
                Ok(c) => Ok(b + c),
            },
        }
    }
}

/// The message in a packet: the header, the four section counts, then the
/// sections in order, each item read where the previous one ended.
#[verifier::opaque]
pub open spec fn message_at(buf: Seq<u8>) -> Result<MessageView, DecodeError> {
    match header_at(buf) {
        Err(e) => Err(e),
        Ok((header, _)) => if buf.len() < 12 {
            Err(DecodeError::MalformedMessage)
        } else {
            let qd = be16(buf[4], buf[5]);
            let an = be16(buf[6], buf[7]);
            let ns = be16(buf[8], buf[9]);
            let ar = be16(buf[10], buf[11]);
            match items_at(buf, 12, qd as nat, question_reader()) {
                Err(e) => Err(e),
                Ok((questions, o1)) => match items_at(buf, o1, an as nat, resource_reader()) {
                    Err(e) => Err(e),
                    Ok((answers, o2)) => match items_at(buf, o2, ns as nat, resource_reader()) {
                        Err(e) => Err(e),
                        Ok((authority, o3)) => match items_at(
                            buf,
                            o3,
                            ar as nat,
                            resource_reader(),
                        ) {
                            Err(e) => Err(e),
                            Ok((additional, _)) => Ok(
                                MessageView { header, questions, answers, authority, additional },
                            ),
                        },
                    },
                },
            }
        },
    }
}

/// The bytes a message encodes to, or why it cannot be encoded: the counts
/// are the section lengths, which must fit in 16 bits.
pub open spec fn message_encoding(m: MessageView) -> Result<Seq<u8>, EncodeError> {
    if m.questions.len() > 65535 || m.answers.len() > 65535 || m.authority.len() > 65535
        || m.additional.len() > 65535 {
        Err(EncodeError::SectionLength)
    } else {
        match items_encoding(m.questions, question_writer()) {
            Err(e) => Err(e),
            Ok(q) => match items_encoding(m.answers, resource_writer()) {
                Err(e) => Err(e),
                Ok(a) => match items_encoding(m.authority, resource_writer()) {
                    Err(e) => Err(e),
                    Ok(n) => match items_encoding(m.additional, resource_writer()) {
                        Err(e) => Err(e),
                        Ok(r) => Ok(
                            header_wire(m.header) + u16_bytes(m.questions.len() as u16)
                                + u16_bytes(m.answers.len() as u16) + u16_bytes(
                                m.authority.len() as u16,
                            ) + u16_bytes(m.additional.len() as u16) + q + a + n + r,
                        ),
                    },
                },
            },
        }
    }
}

/// Once reading fails, reading more items fails the same way.
pub proof fn lemma_items_at_err<T>(
    buf: Seq<u8>,
    offset: int,
    k: nat,
    count: nat,
    item: ItemReader<T>,
)
    requires
        k <= count,
        items_at(buf, offset, k, item) is Err,
    ensures
        items_at(buf, offset, count, item) == items_at(buf, offset, k, item),
    decreases count,
{
    if count > k {
        lemma_items_at_err(buf, offset, k, (count - 1) as nat, item);
    }
}

/// Once writing fails, writing more items fails the same way.
pub proof fn lemma_items_encoding_err<T>(s: Seq<T>, k: int, item: ItemWriter<T>)
    requires
        0 <= k <= s.len(),
        items_encoding(s.subrange(0, k), item) is Err,
    ensures
        items_encoding(s, item) == items_encoding(s.subrange(0, k), item),
    decreases s.len() - k,
{
    if k < s.len() {
        assert(s.subrange(0, k + 1).drop_last() =~= s.subrange(0, k));
        lemma_items_encoding_err(s, k + 1, item);
    } else {
        assert(s.subrange(0, k) =~= s);
    }
}

fn unpack_questions(message: &[u8], offset: usize, count: u16) -> (r: Result<
    (Vec<Question>, usize),
    DecodeError,
>)
    ensures
        match r {
            Ok((qs, next)) => items_at(message@, offset as int, count as nat, question_reader())
                == Ok::<_, DecodeError>((questions_view(qs@), next as int)),
            Err(e) => items_at(message@, offset as int, count as nat, question_reader()) == Err::<
                (Seq<QuestionView>, int),
                DecodeError,
            >(e),
        },
{
    let mut qs: Vec<Question> = Vec::new();
    let mut pos = offset;
    let mut i: u16 = 0;
    assert(questions_view(qs@) =~= seq![]);
    while i < count
        invariant
            i <= count,
            items_at(message@, offset as int, i as nat, question_reader()) == Ok::<_, DecodeError>(
                (questions_view(qs@), pos as int),
            ),
        decreases count - i,
    {
        match question::unpack(message, pos) {
            Ok((q, next)) => {
                let ghost old_qs = qs@;
                qs.push(q);
                assert(questions_view(qs@) =~= questions_view(old_qs).push(q@));
                pos = next;
            },
            Err(e) => {
                proof {
                    lemma_items_at_err(
                        message@,
                        offset as int,
                        (i + 1) as nat,
                        count as nat,
                        question_reader(),
                    );
                }
                return Err(e);
            },
        }
        i = i + 1;
    }
    Ok((qs, pos))
}

fn unpack_resources(message: &[u8], offset: usize, count: u16) -> (r: Result<
    (Vec<Resource>, usize),
    DecodeError,
>)
    ensures
        match r {
            Ok((rs, next)) => items_at(message@, offset as int, count as nat, resource_reader())
                == Ok::<_, DecodeError>((resources_view(rs@), next as int)),
            Err(e) => items_at(message@, offset as int, count as nat, resource_reader()) == Err::<
                (Seq<ResourceView>, int),
                DecodeError,
            >(e),
        },
{
    let mut rs: Vec<Resource> = Vec::new();
    let mut pos = offset;
    let mut i: u16 = 0;
    assert(resources_view(rs@) =~= seq![]);
    while i < count
        invariant
            i <= count,
            items_at(message@, offset as int, i as nat, resource_reader()) == Ok::<_, DecodeError>(
                (resources_view(rs@), pos as int),
            ),
        decreases count - i,
    {
        match resource::unpack(message, pos) {
            Ok((x, next)) => {
                let ghost old_rs = rs@;
                rs.push(x);
                assert(resources_view(rs@) =~= resources_view(old_rs).push(x@));
                pos = next;
            },
            Err(e) => {
                proof {
                    lemma_items_at_err(
                        message@,
                        offset as int,
                        (i + 1) as nat,
                        count as nat,
                        resource_reader(),
                    );
                }
                return Err(e);
            },
        }
        i = i + 1;
    }
    Ok((rs, pos))
}

/// Decodes a whole message. Any failure in any part fails the whole.
pub fn unpack(message: &[u8]) -> (r: Result<Message, DecodeError>)
    ensures
        match r {
            Ok(m) => message_at(message@) == Ok::<_, DecodeError>(m@),
            Err(e) => message_at(message@) == Err::<MessageView, DecodeError>(e),
        },
{
    reveal(message_at);
    let (header, _) = match header::unpack(message) {
        Ok(v) => v,
        Err(e) => {
            return Err(e);
        },
    };
    if message.len() < 12 {
        return Err(DecodeError::MalformedMessage);
    }
    let qd = read_u16(message, 4);
    let an = read_u16(message, 6);
    let ns = read_u16(message, 8);
    let ar = read_u16(message, 10);
    let (questions, o1) = match unpack_questions(message, 12, qd) {
        Ok(v) => v,
        Err(e) => {
            return Err(e);
        },
    };
    let (answers, o2) = match unpack_resources(message, o1, an) {
        Ok(v) => v,
        Err(e) => {
            return Err(e);
        },
    };
    let (authority, o3) = match unpack_resources(message, o2, ns) {
        Ok(v) => v,
        Err(e) => {
            return Err(e);
        },
    };
    let (additional, _) = match unpack_resources(message, o3, ar) {
        Ok(v) => v,
        Err(e) => {
            return Err(e);
        },
    };
    Ok(Message { header, questions, answers, authority, additional })
}

fn write_questions(qs: &Vec<Question>, w: &mut Vec<u8>) -> (r: Result<(), EncodeError>)
    ensures
        match items_encoding(questions_view(qs@), question_writer()) {
            Ok(bytes) => r is Ok && final(w)@ == old(w)@ + bytes,
            Err(e) => r == Err::<(), EncodeError>(e),
        },
        old(w)@.len() <= final(w)@.len(),
        final(w)@.subrange(0, old(w)@.len() as int) == old(w)@,
{
    let ghost v = questions_view(qs@);
    let ghost start = w@;
    let mut i: usize = 0;
    assert(v.subrange(0, 0) =~= seq![]);
    assert(start + seq![] =~= start);
    while i < qs.len()
        invariant
            v == questions_view(qs@),
            start == old(w)@,
            i <= qs.len(),
            items_encoding(v.subrange(0, i as int), question_writer()) matches Ok(b) && w@ == start
                + b,
        decreases qs.len() - i,
    {
        let ghost before = w@;
        let res = qs[i].write_to(w);
        assert(v.subrange(0, i + 1).drop_last() =~= v.subrange(0, i as int));
        assert(v.subrange(0, i + 1).last() == qs@[i as int]@);
        match res {
            Ok(()) => {
                proof {
                    let b = items_encoding(v.subrange(0, i as int), question_writer())->Ok_0;
                    let c = question_encoding(qs@[i as int]@)->Ok_0;
                    assert(w@ =~= start + (b + c));
                }
            },
            Err(e) => {
                assert(w@ == before);
                assert(w@.subrange(0, start.len() as int) =~= start);
                proof {
                    lemma_items_encoding_err(v, i + 1, question_writer());
                }
                return Err(e);
            },
        }
        i = i + 1;
    }
    assert(v.subrange(0, v.len() as int) =~= v);
    assert(w@.subrange(0, start.len() as int) =~= start);
    Ok(())
}

fn write_resources(rs: &Vec<Resource>, w: &mut Vec<u8>) -> (r: Result<(), EncodeError>)
    ensures
        match items_encoding(resources_view(rs@), resource_writer()) {
            Ok(bytes) => r is Ok && final(w)@ == old(w)@ + bytes,
            Err(e) => r == Err::<(), EncodeError>(e),
        },
        old(w)@.len() <= final(w)@.len(),
        final(w)@.subrange(0, old(w)@.len() as int) == old(w)@,
{
    let ghost v = resources_view(rs@);
    let ghost start = w@;
    let mut i: usize = 0;
    assert(v.subrange(0, 0) =~= seq![]);
    assert(start + seq![] =~= start);
    while i < rs.len()
        invariant
            v == resources_view(rs@),
            start == old(w)@,
            i <= rs.len(),
            items_encoding(v.subrange(0, i as int), resource_writer()) matches Ok(b) && w@ == start
                + b,
        decreases rs.len() - i,
    {
        let ghost before = w@;
        let res = rs[i].write_to(w);
        assert(v.subrange(0, i + 1).drop_last() =~= v.subrange(0, i as int));
        assert(v.subrange(0, i + 1).last() == rs@[i as int]@);
        match res {
            Ok(()) => {
                proof {
                    let b = items_encoding(v.subrange(0, i as int), resource_writer())->Ok_0;
                    let c = resource_encoding(rs@[i as int]@)->Ok_0;
                    assert(w@ =~= start + (b + c));
                }
            },
            Err(e) => {
                assert(w@ == before);
                assert(w@.subrange(0, start.len() as int) =~= start);
                proof {
                    lemma_items_encoding_err(v, i + 1, resource_writer());
                }
                return Err(e);
            },
        }
        i = i + 1;
    }
    assert(v.subrange(0, v.len() as int) =~= v);
    assert(w@.subrange(0, start.len() as int) =~= start);
    Ok(())
}

impl Message {
    /// Decodes the message the reader holds, from its first byte, and moves
    /// the reader past the last record; on error the reader stays where it was.
    pub fn from_reader(r: &mut Reader) -> (res: Result<Message, DecodeError>)
        ensures
            final(r).bytes == old(r).bytes,
            match res {
                Ok(m) => message_at(old(r).bytes@) == Ok::<_, DecodeError>(m@),
                Err(e) => message_at(old(r).bytes@) == Err::<MessageView, DecodeError>(e)
                    && final(r).pos == old(r).pos,
            },
    {
        reveal(message_at);
        let (header, _) = match header::unpack(r.bytes) {
            Ok(v) => v,
            Err(e) => {
                return Err(e);
            },
        };
        if r.bytes.len() < 12 {
            return Err(DecodeError::MalformedMessage);
        }
        let qd = read_u16(r.bytes, 4);
        let an = read_u16(r.bytes, 6);
        let ns = read_u16(r.bytes, 8);
        let ar = read_u16(r.bytes, 10);
        let (questions, o1) = match unpack_questions(r.bytes, 12, qd) {
            Ok(v) => v,
            Err(e) => {
                return Err(e);
            },
        };
        let (answers, o2) = match unpack_resources(r.bytes, o1, an) {
            Ok(v) => v,
            Err(e) => {
                return Err(e);
            },
        };
        let (authority, o3) = match unpack_resources(r.bytes, o2, ns) {
            Ok(v) => v,
            Err(e) => {
                return Err(e);
            },
        };
        let (additional, end) = match unpack_resources(r.bytes, o3, ar) {
            Ok(v) => v,
            Err(e) => {
                return Err(e);
            },
        };
        r.pos = end;
        Ok(Message { header, questions, answers, authority, additional })
    }

    /// Appends the message: header, the section counts taken from the
    /// section lengths, then every item in order. On error nothing is written.
    #[verifier::rlimit(40)]
    pub fn write_to(&self, w: &mut Vec<u8>) -> (res: Result<(), EncodeError>)
        ensures
            match message_encoding(self@) {
                Ok(bytes) => res is Ok && final(w)@ == old(w)@ + bytes,
                Err(e) => res == Err::<(), EncodeError>(e) && final(w)@ == old(w)@,
            },
    {
        if self.questions.len() > 65535 || self.answers.len() > 65535 || self.authority.len()
            > 65535 || self.additional.len() > 65535 {
            return Err(EncodeError::SectionLength);
        }
        let ghost start = w@;
        let start_len = w.len();
        self.header.write_to(w);
        write_u16(w, self.questions.len() as u16);
        write_u16(w, self.answers.len() as u16);
        write_u16(w, self.authority.len() as u16);
        write_u16(w, self.additional.len() as u16);
        let ghost fixed = w@;
        let r1 = write_questions(&self.questions, w);
        if let Err(e) = r1 {
            assert(items_encoding(self@.questions, question_writer()) == Err::<Seq<u8>, EncodeError>(e));
            assert(w@.subrange(0, start_len as int) =~= start);
            w.truncate(start_len);
            return Err(e);
        }
        let ghost after_q = w@;
        let r2 = write_resources(&self.answers, w);
        if let Err(e) = r2 {
            assert(items_encoding(self@.answers, resource_writer()) == Err::<Seq<u8>, EncodeError>(e));
            assert(w@.subrange(0, start_len as int) =~= start);
            w.truncate(start_len);
            return Err(e);
        }
        let ghost after_a = w@;
        let r3 = write_resources(&self.authority, w);
        if let Err(e) = r3 {
            assert(items_encoding(self@.authority, resource_writer()) == Err::<Seq<u8>, EncodeError>(e));
            assert(w@.subrange(0, start_len as int) =~= start);
            w.truncate(start_len);
            return Err(e);
        }
        let ghost after_n = w@;
        let r4 = write_resources(&self.additional, w);
        if let Err(e) = r4 {
            assert(items_encoding(self@.additional, resource_writer()) == Err::<Seq<u8>, EncodeError>(e));
            assert(w@.subrange(0, start_len as int) =~= start);
            w.truncate(start_len);
            return Err(e);
        }
        proof {
            let v = self@;
            let q = items_encoding(v.questions, question_writer())->Ok_0;
            let a = items_encoding(v.answers, resource_writer())->Ok_0;
            let n = items_encoding(v.authority, resource_writer())->Ok_0;
            let r = items_encoding(v.additional, resource_writer())->Ok_0;
            assert(w@ =~= start + (header_wire(v.header) + u16_bytes(v.questions.len() as u16)
                + u16_bytes(v.answers.len() as u16) + u16_bytes(v.authority.len() as u16)
                + u16_bytes(v.additional.len() as u16) + q + a + n + r));
        }
        Ok(())
    }
}

/// Well-formed questions written one after another at `pos` read back as
/// themselves, and end where their bytes end.
/// Well-formed questions can be written.
pub proof fn lemma_questions_encodable(s: Seq<QuestionView>)
    requires
        forall|i: int| 0 <= i < s.len() ==> question_wf(#[trigger] s[i]),
    ensures
        items_encoding(s, question_writer()) is Ok,
    decreases s.len(),
{
    if s.len() > 0 {
        let s0 = s.drop_last();
        assert forall|i: int| 0 <= i < s0.len() implies question_wf(#[trigger] s0[i]) by {
            assert(s0[i] == s[i]);
        }
        lemma_questions_encodable(s0);
        assert(question_wf(s.last()));
        assert(question_encoding(s.last()) is Ok);
    }
}

pub proof fn lemma_questions_round_trip(buf: Seq<u8>, pos: int, s: Seq<QuestionView>)
    requires
        0 <= pos,
        forall|i: int| 0 <= i < s.len() ==> question_wf(#[trigger] s[i]),
        pos + items_encoding(s, question_writer())->Ok_0.len() <= buf.len(),
        buf.subrange(pos, pos + items_encoding(s, question_writer())->Ok_0.len()) == items_encoding(
            s,
            question_writer(),
        )->Ok_0,
    ensures
        items_encoding(s, question_writer()) is Ok,
        items_at(buf, pos, s.len(), question_reader()) == Ok::<_, DecodeError>(
            (s, pos + items_encoding(s, question_writer())->Ok_0.len()),
        ),
    decreases s.len(),
{
    if s.len() == 0 {
        assert(s =~= seq![]);
    } else {
        let s0 = s.drop_last();
        let x = s.last();
        assert(question_wf(x));
        assert forall|i: int| 0 <= i < s0.len() implies question_wf(#[trigger] s0[i]) by {
            assert(s0[i] == s[i]);
        }
        lemma_questions_encodable(s0);
        assert(question_encoding(x) is Ok);
        let b0 = items_encoding(s0, question_writer())->Ok_0;
        let c = question_encoding(x)->Ok_0;
        let b = items_encoding(s, question_writer())->Ok_0;
        assert(b == b0 + c);
        lemma_part_at(buf, pos, b, 0, b0.len() as int);
        assert(b.subrange(0, b0.len() as int) =~= b0);
        lemma_questions_round_trip(buf, pos, s0);
        lemma_part_at(buf, pos, b, b0.len() as int, b.len() as int);
        assert(b.subrange(b0.len() as int, b.len() as int) =~= c);
        lemma_question_round_trip(buf, pos + b0.len(), x);
        assert(s0.push(x) =~= s);
    }
}

/// Well-formed resources written one after another at `pos` read back as
/// themselves, and end where their bytes end.
/// Well-formed resources can be written.
pub proof fn lemma_resources_encodable(s: Seq<ResourceView>)
    requires
        forall|i: int| 0 <= i < s.len() ==> resource_wf(#[trigger] s[i]),
    ensures
        items_encoding(s, resource_writer()) is Ok,
    decreases s.len(),
{
    if s.len() > 0 {
        let s0 = s.drop_last();
        assert forall|i: int| 0 <= i < s0.len() implies resource_wf(#[trigger] s0[i]) by {
            assert(s0[i] == s[i]);
        }
        lemma_resources_encodable(s0);
        assert(resource_wf(s.last()));
        assert(resource_encoding(s.last()) is Ok);
    }
}

pub proof fn lemma_resources_round_trip(buf: Seq<u8>, pos: int, s: Seq<ResourceView>)
    requires
        0 <= pos,
        forall|i: int| 0 <= i < s.len() ==> resource_wf(#[trigger] s[i]),
        pos + items_encoding(s, resource_writer())->Ok_0.len() <= buf.len(),
        buf.subrange(pos, pos + items_encoding(s, resource_writer())->Ok_0.len()) == items_encoding(
            s,
            resource_writer(),
        )->Ok_0,
    ensures
        items_encoding(s, resource_writer()) is Ok,
        items_at(buf, pos, s.len(), resource_reader()) == Ok::<_, DecodeError>(
            (s, pos + items_encoding(s, resource_writer())->Ok_0.len()),
        ),
    decreases s.len(),
{
    if s.len() == 0 {
        assert(s =~= seq![]);
    } else {
        let s0 = s.drop_last();
        let x = s.last();
        assert(resource_wf(x));
        assert forall|i: int| 0 <= i < s0.len() implies resource_wf(#[trigger] s0[i]) by {
            assert(s0[i] == s[i]);
        }
        lemma_resources_encodable(s0);
        assert(resource_encoding(x) is Ok);
        let b0 = items_encoding(s0, resource_writer())->Ok_0;
        let c = resource_encoding(x)->Ok_0;
        let b = items_encoding(s, resource_writer())->Ok_0;
        assert(b == b0 + c);
        lemma_part_at(buf, pos, b, 0, b0.len() as int);
        assert(b.subrange(0, b0.len() as int) =~= b0);
        lemma_resources_round_trip(buf, pos, s0);
        lemma_part_at(buf, pos, b, b0.len() as int, b.len() as int);
        assert(b.subrange(b0.len() as int, b.len() as int) =~= c);
        lemma_resource_round_trip(buf, pos + b0.len(), x);
        assert(s0.push(x) =~= s);
    }
}

/// A message that can be written and reads back as itself: a well-formed
/// header, at most 65535 entries in each section, and well-formed entries.
pub open spec fn message_wf(m: MessageView) -> bool {
    &&& header_wf(m.header)
    &&& m.questions.len() <= 65535
    &&& m.answers.len() <= 65535
    &&& m.authority.len() <= 65535
    &&& m.additional.len() <= 65535
    &&& forall|i: int| 0 <= i < m.questions.len() ==> question_wf(#[trigger] m.questions[i])
    &&& forall|i: int| 0 <= i < m.answers.len() ==> resource_wf(#[trigger] m.answers[i])
    &&& forall|i: int| 0 <= i < m.authority.len() ==> resource_wf(#[trigger] m.authority[i])
    &&& forall|i: int| 0 <= i < m.additional.len() ==> resource_wf(#[trigger] m.additional[i])
}

/// Encoding then decoding a well-formed message gives the message back: the
/// counts on the wire are the section lengths, and every header field, name,
/// code, ttl and record data survives.
proof fn lemma_message_at_parts(buf: Seq<u8>, m: MessageView, at_an: int, at_ns: int, at_ar: int, end: int)
    requires
        buf.len() >= 12,
        header_at(buf) == Ok::<_, DecodeError>((m.header, 4int)),
        be16(buf[4], buf[5]) == m.questions.len(),
        be16(buf[6], buf[7]) == m.answers.len(),
        be16(buf[8], buf[9]) == m.authority.len(),
        be16(buf[10], buf[11]) == m.additional.len(),
        items_at(buf, 12, m.questions.len(), question_reader()) == Ok::<_, DecodeError>(
            (m.questions, at_an),
        ),
        items_at(buf, at_an, m.answers.len(), resource_reader()) == Ok::<_, DecodeError>(
            (m.answers, at_ns),
        ),
        items_at(buf, at_ns, m.authority.len(), resource_reader()) == Ok::<_, DecodeError>(
            (m.authority, at_ar),
        ),
        items_at(buf, at_ar, m.additional.len(), resource_reader()) == Ok::<_, DecodeError>(
            (m.additional, end),
        ),
    ensures
        message_at(buf) == Ok::<_, DecodeError>(m),
{
    reveal(message_at);
}

proof fn lemma_sections_round_trip(buf: Seq<u8>, m: MessageView, at_an: int, at_ns: int, at_ar: int)
    requires
        message_wf(m),
        items_encoding(m.questions, question_writer()) is Ok,
        items_encoding(m.answers, resource_writer()) is Ok,
        items_encoding(m.authority, resource_writer()) is Ok,
        items_encoding(m.additional, resource_writer()) is Ok,
        at_an == 12 + items_encoding(m.questions, question_writer())->Ok_0.len(),
        at_ns == at_an + items_encoding(m.answers, resource_writer())->Ok_0.len(),
        at_ar == at_ns + items_encoding(m.authority, resource_writer())->Ok_0.len(),
        at_ar + items_encoding(m.additional, resource_writer())->Ok_0.len() <= buf.len(),
        buf.subrange(12, at_an) == items_encoding(m.questions, question_writer())->Ok_0,
        buf.subrange(at_an, at_ns) == items_encoding(m.answers, resource_writer())->Ok_0,
        buf.subrange(at_ns, at_ar) == items_encoding(m.authority, resource_writer())->Ok_0,
        buf.subrange(at_ar, at_ar + items_encoding(m.additional, resource_writer())->Ok_0.len())
            == items_encoding(m.additional, resource_writer())->Ok_0,
    ensures
        items_at(buf, 12, m.questions.len(), question_reader()) == Ok::<_, DecodeError>(
            (m.questions, at_an),
        ),
        items_at(buf, at_an, m.answers.len(), resource_reader()) == Ok::<_, DecodeError>(
            (m.answers, at_ns),
        ),
        items_at(buf, at_ns, m.authority.len(), resource_reader()) == Ok::<_, DecodeError>(
            (m.authority, at_ar),
        ),
        items_at(buf, at_ar, m.additional.len(), resource_reader()) == Ok::<_, DecodeError>(
            (m.additional, at_ar + items_encoding(m.additional, resource_writer())->Ok_0.len()),
        ),
{
    lemma_questions_round_trip(buf, 12, m.questions);
    lemma_resources_round_trip(buf, at_an, m.answers);
    lemma_resources_round_trip(buf, at_ns, m.authority);
    lemma_resources_round_trip(buf, at_ar, m.additional);
}

proof fn lemma_five_parts(pre: Seq<u8>, q: Seq<u8>, a: Seq<u8>, n: Seq<u8>, r: Seq<u8>)
    requires
        pre.len() == 12,
    ensures
        ({
            let buf = pre + q + a + n + r;
            let at_an: int = 12 + q.len() as int;
            let at_ns: int = at_an + a.len() as int;
            let at_ar: int = at_ns + n.len() as int;
            &&& buf.subrange(12, at_an) == q
            &&& buf.subrange(at_an, at_ns) == a
            &&& buf.subrange(at_ns, at_ar) == n
            &&& buf.subrange(at_ar, at_ar + r.len() as int) == r
            &&& at_ar + r.len() == buf.len()
            &&& forall|k: int| 0 <= k < 12 ==> buf[k] == pre[k]
        }),
{
    let buf = pre + q + a + n + r;
    let at_an: int = 12 + q.len() as int;
    let at_ns: int = at_an + a.len() as int;
    let at_ar: int = at_ns + n.len() as int;
    assert(buf.subrange(12, at_an) =~= q);
    assert(buf.subrange(at_an, at_ns) =~= a);
    assert(buf.subrange(at_ns, at_ar) =~= n);
    assert(buf.subrange(at_ar, at_ar + r.len() as int) =~= r);
}

pub proof fn lemma_message_round_trip(m: MessageView)
    requires
        message_wf(m),
    ensures
        message_encoding(m) is Ok,
        message_at(message_encoding(m)->Ok_0) == Ok::<_, DecodeError>(m),
{
    lemma_questions_encodable(m.questions);
    lemma_resources_encodable(m.answers);
    lemma_resources_encodable(m.authority);
    lemma_resources_encodable(m.additional);
    let hw = header_wire(m.header);
    let cq = u16_bytes(m.questions.len() as u16);
    let ca = u16_bytes(m.answers.len() as u16);
    let cn = u16_bytes(m.authority.len() as u16);
    let cr = u16_bytes(m.additional.len() as u16);
    let q = items_encoding(m.questions, question_writer())->Ok_0;
    let a = items_encoding(m.answers, resource_writer())->Ok_0;
    let n = items_encoding(m.authority, resource_writer())->Ok_0;
    let r = items_encoding(m.additional, resource_writer())->Ok_0;
    let pre = hw + cq + ca + cn + cr;
    let buf = pre + q + a + n + r;
    assert(message_encoding(m)->Ok_0 == buf);
    let at_an: int = 12 + q.len() as int;
    let at_ns: int = at_an + a.len();
    let at_ar: int = at_ns + n.len();
    lemma_five_parts(pre, q, a, n, r);
    lemma_header_round_trip(m.header);
    lemma_u16_bytes(m.questions.len() as u16);
    lemma_u16_bytes(m.answers.len() as u16);
    lemma_u16_bytes(m.authority.len() as u16);
    lemma_u16_bytes(m.additional.len() as u16);
    assert(header_at(buf) == header_at(hw)) by {
        assert(pre[0] == hw[0] && pre[1] == hw[1] && pre[2] == hw[2] && pre[3] == hw[3]);
    }
    assert(be16(buf[4], buf[5]) == m.questions.len() && be16(buf[6], buf[7]) == m.answers.len()
        && be16(buf[8], buf[9]) == m.authority.len() && be16(buf[10], buf[11])
        == m.additional.len()) by {
        assert(pre[4] == cq[0] && pre[5] == cq[1] && pre[6] == ca[0] && pre[7] == ca[1]);
        assert(pre[8] == cn[0] && pre[9] == cn[1] && pre[10] == cr[0] && pre[11] == cr[1]);
    }
    lemma_sections_round_trip(buf, m, at_an, at_ns, at_ar);
    lemma_message_at_parts(buf, m, at_an, at_ns, at_ar, at_ar + r.len());
}

} // verus!
