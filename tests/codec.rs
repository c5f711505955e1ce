use couchdns::class::{self, Class};
use couchdns::error::{DecodeError, EncodeError};
use couchdns::header::{self, Header, QueryResponse};
use couchdns::message::{self, Message};
use couchdns::name;
use couchdns::op::{self, Op};
use couchdns::question::Question;
use couchdns::rcode::{self, ResponseCode};
use couchdns::resource::{Resource, ResourceData};
use couchdns::rrtype::{self, RRType};
use couchdns::wire::Reader;

fn labels(xs: &[&str]) -> Vec<String> {
    xs.iter().map(|s| s.to_string()).collect()
}

fn sample_message() -> Message {
    Message {
        header: Header {
            id: 0xBEEF,
            qr: QueryResponse::Response,
            op: Op::Status,
            aa: true,
            tr: false,
            rd: true,
            ra: true,
            reserved: false,
            ad: true,
            cd: false,
            rcode: ResponseCode::NXDomain,
        },
        questions: vec![Question {
            name: labels(&["www", "example", "org"]),
            rrtype: RRType::AAAA,
            class: Class::IN,
        }],
        answers: vec![Resource {
            name: labels(&["www", "example", "org"]),
            rrtype: RRType::A,
            class: Class::IN,
            ttl: 3600,
            rlength: 4,
            rdata: ResourceData::A(10, 0, 0, 1),
        }],
        authority: vec![Resource {
            name: labels(&["example", "org"]),
            rrtype: RRType::TXT,
            class: Class::CH,
            ttl: 0xFFFF_FFFF,
            rlength: 3,
            rdata: ResourceData::Raw(vec![2, b'h', b'i']),
        }],
        additional: vec![],
    }
}

#[test]
fn flags_query_bits() {
    let (h, _) = header::unpack(&[0, 0, 0x01, 0x00]).unwrap();
    assert_eq!(h.qr, QueryResponse::Query);
    assert_eq!(h.op, Op::Query);
    assert!(!h.aa && !h.tr && h.rd && !h.ra && !h.reserved && !h.ad && !h.cd);
    assert_eq!(h.rcode, ResponseCode::NoError);
}

#[test]
fn flags_response_bits() {
    let (h, _) = header::unpack(&[0, 0, 0x81, 0x80]).unwrap();
    assert_eq!(h.qr, QueryResponse::Response);
    assert_eq!(h.op, Op::Query);
    assert!(!h.aa && !h.tr && h.rd && h.ra && !h.reserved && !h.ad && !h.cd);
    assert_eq!(h.rcode, ResponseCode::NoError);
}

#[test]
fn flags_every_field() {
    // QR, opcode 5, AA, TC; reserved, AD, CD and rcode 3.
    let (h, _) = header::unpack(&[0x12, 0x34, 0xAE, 0x73]).unwrap();
    assert_eq!(h.id, 0x1234);
    assert_eq!(h.qr, QueryResponse::Response);
    assert_eq!(h.op, Op::Update);
    assert!(h.aa && h.tr && !h.rd && !h.ra && h.reserved && h.ad && h.cd);
    assert_eq!(h.rcode, ResponseCode::NXDomain);
}

#[test]
fn header_too_short() {
    assert_eq!(header::unpack(&[1, 2, 3]), Err(DecodeError::MalformedMessage));
}

#[test]
fn header_write_clears_reserved() {
    let h = Header { id: 0x0102, reserved: true, rd: true, ..Default::default() };
    let mut w = vec![9u8];
    h.write_to(&mut w);
    assert_eq!(w, vec![9, 0x01, 0x02, 0x01, 0x00]);
}

#[test]
fn round_trip_message() {
    let m = sample_message();
    let mut w = Vec::new();
    m.write_to(&mut w).unwrap();
    let back = message::unpack(&w).unwrap();
    assert_eq!(back, m);
}

#[test]
fn counts_follow_sections() {
    let m = sample_message();
    let mut w = Vec::new();
    m.write_to(&mut w).unwrap();
    assert_eq!(&w[4..12], &[0, 1, 0, 1, 0, 1, 0, 0]);
}

#[test]
fn message_from_reader_moves_to_end() {
    let m = sample_message();
    let mut w = Vec::new();
    m.write_to(&mut w).unwrap();
    let mut r = Reader::new(&w);
    let back = Message::from_reader(&mut r).unwrap();
    assert_eq!(back, m);
    assert_eq!(r.pos, w.len());
}

#[test]
fn question_and_resource_from_reader() {
    let m = sample_message();
    let mut w = Vec::new();
    m.write_to(&mut w).unwrap();
    let mut r = Reader::new(&w);
    r.pos = 12;
    let q = Question::from_reader(&mut r).unwrap();
    assert_eq!(q, m.questions[0]);
    let a = Resource::from_reader(&mut r).unwrap();
    assert_eq!(a, m.answers[0]);
}

#[test]
fn header_from_reader_reads_four_bytes() {
    let mut r = Reader::new(&[0x68, 0xC4, 0x01, 0x00, 0x00, 0x01]);
    let h = Header::from_reader(&mut r).unwrap();
    assert_eq!(h.id, 0x68C4);
    assert!(h.rd);
    assert_eq!(r.pos, 4);
}

#[test]
fn label_too_long_is_refused() {
    let long = "a".repeat(64);
    let q = Question { name: vec![long], rrtype: RRType::A, class: Class::IN };
    let mut w = vec![7u8];
    assert_eq!(q.write_to(&mut w), Err(EncodeError::LabelLength));
    assert_eq!(w, vec![7u8]);
}

#[test]
fn label_of_63_bytes_is_written() {
    let label = "b".repeat(63);
    let mut w = Vec::new();
    name::pack(&vec![label.clone()], &mut w).unwrap();
    assert_eq!(w.len(), 65);
    assert_eq!(w[0], 63);
    assert_eq!(w[64], 0);
}

#[test]
fn empty_label_is_refused() {
    let mut w = Vec::new();
    assert_eq!(name::pack(&labels(&["a", ""]), &mut w), Err(EncodeError::LabelLength));
    assert!(w.is_empty());
}

#[test]
fn empty_name_is_one_zero_byte() {
    let mut w = Vec::new();
    name::pack(&vec![], &mut w).unwrap();
    assert_eq!(w, vec![0]);
}

#[test]
fn rdata_too_long_is_refused() {
    let r = Resource {
        name: labels(&["x"]),
        rrtype: RRType::NULL,
        class: Class::IN,
        ttl: 1,
        rlength: 0,
        rdata: ResourceData::Raw(vec![0u8; 65536]),
    };
    let mut w = vec![1u8, 2];
    assert_eq!(r.write_to(&mut w), Err(EncodeError::RdataLength));
    assert_eq!(w, vec![1u8, 2]);
}

#[test]
fn rdata_length_derived_on_write() {
    let r = Resource {
        name: labels(&["x"]),
        rrtype: RRType::NULL,
        class: Class::IN,
        ttl: 1,
        rlength: 99,
        rdata: ResourceData::Raw(vec![5, 6]),
    };
    let mut w = Vec::new();
    r.write_to(&mut w).unwrap();
    assert_eq!(w, vec![1, b'x', 0, 0, 10, 0, 1, 0, 0, 0, 1, 0, 2, 5, 6]);
}

#[test]
fn self_pointer_is_rejected() {
    let buf = [0u8, 0, 0xC0, 0x02];
    assert_eq!(name::unpack(&buf, 2), Err(DecodeError::MalformedName));
}

#[test]
fn pointer_loop_is_rejected() {
    let buf = [0xC0u8, 0x02, 0xC0, 0x00];
    assert_eq!(name::unpack(&buf, 0), Err(DecodeError::MalformedName));
    assert_eq!(name::unpack(&buf, 2), Err(DecodeError::MalformedName));
}

#[test]
fn pointer_into_own_name_is_rejected() {
    // "a" at 0, then a pointer back to 0 inside the same name.
    let buf = [1u8, b'a', 0xC0, 0x00];
    assert_eq!(name::unpack(&buf, 0), Err(DecodeError::MalformedName));
}

#[test]
fn labels_then_pointer() {
    let buf = [3u8, b'c', b'o', b'm', 0, 3, b'w', b'w', b'w', 0xC0, 0x00];
    let (n, next) = name::unpack(&buf, 5).unwrap();
    assert_eq!(n, ["www", "com"]);
    assert_eq!(next, 11);
}

#[test]
fn reserved_length_byte_is_rejected() {
    assert_eq!(name::unpack(&[64u8, 0], 0), Err(DecodeError::MalformedName));
    assert_eq!(name::unpack(&[0x80u8, 0], 0), Err(DecodeError::MalformedName));
}

#[test]
fn invalid_utf8_label_is_rejected() {
    assert_eq!(name::unpack(&[1u8, 0xFF, 0], 0), Err(DecodeError::MalformedName));
}

#[test]
fn utf8_label_is_kept() {
    let buf = [2u8, 0xC3, 0xA9, 0];
    let (n, next) = name::unpack(&buf, 0).unwrap();
    assert_eq!(n, ["é"]);
    assert_eq!(next, 4);
}

#[test]
fn truncated_name_is_malformed_message() {
    assert_eq!(name::unpack(&[5u8, b'a', b'b'], 0), Err(DecodeError::MalformedMessage));
    assert_eq!(name::unpack(&[1u8, b'a'], 0), Err(DecodeError::MalformedMessage));
    assert_eq!(name::unpack(&[0xC0u8], 0), Err(DecodeError::MalformedMessage));
    assert_eq!(name::unpack(&[], 0), Err(DecodeError::MalformedMessage));
}

#[test]
fn address_record_needs_four_bytes() {
    let buf = [0u8, 0, 1, 0, 1, 0, 0, 0, 1, 0, 3, 1, 2, 3];
    assert_eq!(couchdns::resource::unpack(&buf, 0), Err(DecodeError::MalformedMessage));
}

#[test]
fn truncated_rdata_is_malformed() {
    let buf = [0u8, 0, 16, 0, 1, 0, 0, 0, 1, 0, 5, 1, 2];
    assert_eq!(couchdns::resource::unpack(&buf, 0), Err(DecodeError::MalformedMessage));
}

#[test]
fn other_types_keep_raw_bytes() {
    let buf = [0u8, 0, 16, 0, 1, 0, 0, 0, 1, 0, 2, 1, 2, 9];
    let (r, next) = couchdns::resource::unpack(&buf, 0).unwrap();
    assert_eq!(r.rrtype, RRType::TXT);
    assert_eq!(r.rdata, ResourceData::Raw(vec![1, 2]));
    assert_eq!(r.rlength, 2);
    assert_eq!(next, 13);
}

#[test]
fn message_missing_question_fails() {
    let buf = [0u8, 1, 0, 0, 0, 1, 0, 0, 0, 0, 0, 0];
    assert_eq!(message::unpack(&buf), Err(DecodeError::MalformedMessage));
}

#[test]
fn message_shorter_than_counts_fails() {
    assert_eq!(message::unpack(&[0u8, 1, 0, 0, 0, 1]), Err(DecodeError::MalformedMessage));
}

#[test]
fn classifiers_cover_every_code() {
    for v in 0..=0xFFFFu32 {
        let v = v as u16;
        assert_eq!(class::unpack(v).code(), v);
        assert_eq!(rrtype::unpack(v).code(), v);
        assert_eq!(rcode::unpack(v).code(), v);
    }
    for v in 0..=0xFFu32 {
        let v = v as u8;
        assert_eq!(op::unpack(v).code(), v);
    }
}

#[test]
fn class_ranges() {
    assert_eq!(class::unpack(0), Class::Reserved(0));
    assert_eq!(class::unpack(0xFFFF), Class::Reserved(0xFFFF));
    assert_eq!(class::unpack(1), Class::IN);
    assert_eq!(class::unpack(3), Class::CH);
    assert_eq!(class::unpack(4), Class::HS);
    assert_eq!(class::unpack(0xFE), Class::NONE);
    assert_eq!(class::unpack(0xFF), Class::Wildcard);
    assert_eq!(class::unpack(2), Class::Unassigned(2));
    assert_eq!(class::unpack(0xFEFF), Class::Unassigned(0xFEFF));
    assert_eq!(class::unpack(0xFF00), Class::Private(0xFF00));
}

#[test]
fn op_values() {
    assert_eq!(op::unpack(0), Op::Query);
    assert_eq!(op::unpack(1), Op::IQuery);
    assert_eq!(op::unpack(2), Op::Status);
    assert_eq!(op::unpack(3), Op::Unassigned(3));
    assert_eq!(op::unpack(4), Op::Notify);
    assert_eq!(op::unpack(5), Op::Update);
    assert_eq!(op::unpack(15), Op::Unassigned(15));
}

#[test]
fn rcode_ranges() {
    assert_eq!(rcode::unpack(0), ResponseCode::NoError);
    assert_eq!(rcode::unpack(0x0A), ResponseCode::NotZone);
    assert_eq!(rcode::unpack(0x0B), ResponseCode::Unassigned(0x0B));
    assert_eq!(rcode::unpack(0x10), ResponseCode::BADVERSORBADSIG);
    assert_eq!(rcode::unpack(0x16), ResponseCode::BADTRUNC);
    assert_eq!(rcode::unpack(0x17), ResponseCode::Unassigned(0x17));
    assert_eq!(rcode::unpack(0x0142), ResponseCode::Private(0x42));
    assert_eq!(rcode::unpack(0xFFFF), ResponseCode::Reserved);
}

#[test]
fn rrtype_ranges() {
    assert_eq!(rrtype::unpack(1), RRType::A);
    assert_eq!(rrtype::unpack(28), RRType::AAAA);
    assert_eq!(rrtype::unpack(0xFF), RRType::Wildcard);
    assert_eq!(rrtype::unpack(0x0101), RRType::CAA);
    assert_eq!(rrtype::unpack(0x8001), RRType::DLV);
    assert_eq!(rrtype::unpack(0x34), RRType::Unassigned(0x34));
    assert_eq!(rrtype::unpack(0xFF00), RRType::Private(0xFF00));
    assert_eq!(rrtype::unpack(0xFFFF), RRType::Reserved);
}
