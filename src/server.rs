use vstd::prelude::*;
use vstd::slice::slice_subrange;

use crate::error::{DecodeError, EncodeError};
use crate::header::{Header, QueryResponse};
use crate::message::{self, message_at, message_encoding, questions_view, resources_view, Message, MessageView};
use crate::op::Op;
use crate::question::Question;
use crate::rcode::ResponseCode;
use crate::records::copy_name;
use crate::resource::Resource;

verus! {

/// The largest datagram a response may take.
pub const MAX_DATAGRAM: usize = 512;

/// Decodes the first `length` bytes of a receive buffer as a message.
pub fn read(buffer: &[u8], length: usize) -> (r: Result<Message, DecodeError>)
    requires
        length <= buffer@.len(),
    ensures
        match r {
            Ok(m) => message_at(buffer@.subrange(0, length as int)) == Ok::<_, DecodeError>(m@),
            Err(e) => message_at(buffer@.subrange(0, length as int)) == Err::<
                MessageView,
                DecodeError,
            >(e),
        },
{
    message::unpack(slice_subrange(buffer, 0, length))
}

/// The header of a response to a query with header `query`: the same id and
/// recursion-desired flag, marked as a response, and a server failure when
/// the lookup failed.
pub open spec fn response_header(query: Header, found: bool) -> Header {
    Header {
        id: query.id,
        qr: QueryResponse::Response,
        op: Op::Query,
        aa: false,
        tr: false,
        rd: query.rd,
        ra: false,
        reserved: false,
        ad: false,
        cd: false,
        rcode: if found {
            ResponseCode::NoError
        } else {
            ResponseCode::ServFail
        },
    }
}

fn copy_questions(qs: &Vec<Question>) -> (r: Vec<Question>)
    ensures
        questions_view(r@) == questions_view(qs@),
{
    let mut r: Vec<Question> = Vec::new();
    let mut i: usize = 0;
    while i < qs.len()
        invariant
            i <= qs.len(),
            questions_view(r@) == questions_view(qs@.subrange(0, i as int)),
        decreases qs.len() - i,
    {
        let ghost before = r@;
        let q = Question { name: copy_name(&qs[i].name), rrtype: qs[i].rrtype, class: qs[i].class };
        r.push(q);
        assert(qs@.subrange(0, i + 1) =~= qs@.subrange(0, i as int).push(qs@[i as int]));
        assert(questions_view(r@) =~= questions_view(before).push(q@));
        assert(questions_view(r@) =~= questions_view(qs@.subrange(0, i + 1)));
        i = i + 1;
    }
    assert(qs@.subrange(0, qs@.len() as int) =~= qs@);
    r
}

/// The response to `query`: its questions echoed, and the answers of the
/// lookup, or none and a server failure when the lookup failed.
pub fn generate_response(query: &Message, answers: Option<Vec<Resource>>) -> (r: Message)
    ensures
        r.header == response_header(query.header, answers is Some),
        r@.questions == query@.questions,
        match answers {
            Some(a) => r@.answers == resources_view(a@),
            None => r@.answers.len() == 0,
        },
        r@.authority.len() == 0,
        r@.additional.len() == 0,
{
    let (found, answers) = match answers {
        Some(a) => (true, a),
        None => (false, Vec::new()),
    };
    let header = Header {
        id: query.header.id,
        qr: QueryResponse::Response,
        op: Op::Query,
        aa: false,
        tr: false,
        rd: query.header.rd,
        ra: false,
        reserved: false,
        ad: false,
        cd: false,
        rcode: if found {
            ResponseCode::NoError
        } else {
            ResponseCode::ServFail
        },
    };
    Message {
        header,
        questions: copy_questions(&query.questions),
        answers,
        authority: Vec::new(),
        additional: Vec::new(),
    }
}

/// Encodes a response for one datagram.
pub fn write(response: &Message) -> (r: Result<Vec<u8>, EncodeError>)
    ensures
        match message_encoding(response@) {
            Ok(b) => if b.len() <= MAX_DATAGRAM {
                r matches Ok(v) && v@ == b
            } else {
                r == Err::<Vec<u8>, EncodeError>(EncodeError::TooLarge)
            },
            Err(e) => r == Err::<Vec<u8>, EncodeError>(e),
        },
{
    let mut w: Vec<u8> = Vec::new();
    match response.write_to(&mut w) {
        Ok(()) => {},
        Err(e) => {
            return Err(e);
        },
    }
    assert(w@ =~= Seq::<u8>::empty() + w@);
    if w.len() > MAX_DATAGRAM {
        return Err(EncodeError::TooLarge);
    }
    Ok(w)
}

} // verus!
