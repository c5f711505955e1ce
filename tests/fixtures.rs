use couchdns::class::Class;
use couchdns::header::{self, Header, QueryResponse};
use couchdns::message;
use couchdns::name;
use couchdns::question::{self, Question};
use couchdns::resource::{self, Resource, ResourceData};
use couchdns::rrtype::RRType;

fn question_bytes() -> Vec<u8> {
    let mut b = vec![8u8];
    b.extend_from_slice(b"memoways");
    b.push(5);
    b.extend_from_slice(b"slack");
    b.push(3);
    b.extend_from_slice(b"com");
    b.push(0);
    b.extend_from_slice(&[0x00, 0x01, 0x00, 0x01]);
    b
}

/// A captured query for the A record of memoways.slack.com.
fn q0() -> Vec<u8> {
    let mut b = vec![0x68, 0xC4, 0x01, 0x00, 0x00, 0x01, 0x00, 0x00, 0x00, 0x00, 0x00, 0x00];
    b.extend(question_bytes());
    b
}

/// The captured response to that query, whose answer names the question by a
/// compression pointer.
fn r0() -> Vec<u8> {
    let mut b = vec![0x68, 0xC4, 0x81, 0x80, 0x00, 0x01, 0x00, 0x01, 0x00, 0x00, 0x00, 0x00];
    b.extend(question_bytes());
    b.extend_from_slice(&[
        0xC0, 0x0C, 0x00, 0x01, 0x00, 0x01, 0x00, 0x00, 0x00, 0x3B, 0x00, 0x04, 0x17, 0x17, 0x74,
        0x78,
    ]);
    b
}

fn memoways() -> Vec<String> {
    vec!["memoways".to_string(), "slack".to_string(), "com".to_string()]
}

#[test]
fn header_test_unpack() {
    let q0 = q0();
    let r0 = r0();

    let (header, offset) = header::unpack(q0.as_slice()).unwrap();

    assert_eq!(offset, 4);
    assert_eq!(header, Header { id: 0x68C4, rd: true, ..Default::default() });

    let (header, offset) = header::unpack(r0.as_slice()).unwrap();

    assert_eq!(offset, 4);
    assert_eq!(
        header,
        Header {
            id: 0x68C4,
            qr: QueryResponse::Response,
            rd: true,
            ra: true,
            ..Default::default()
        }
    );
}

#[test]
fn message_test_unpack() {
    let q0 = q0();
    let r0 = r0();

    let question0 = Question { name: memoways(), rrtype: RRType::A, class: Class::IN };

    let message = message::unpack(q0.as_slice()).unwrap();

    assert_eq!(message.header, Header { id: 0x68C4, rd: true, ..Default::default() });

    assert_eq!(message.questions.len(), 1);
    assert_eq!(message.answers.len(), 0);
    assert_eq!(message.authority.len(), 0);
    assert_eq!(message.additional.len(), 0);

    assert_eq!(message.questions, vec![question0.clone()]);

    let message = message::unpack(r0.as_slice()).unwrap();

    assert_eq!(
        message.header,
        Header {
            id: 0x68C4,
            qr: QueryResponse::Response,
            rd: true,
            ra: true,
            ..Default::default()
        }
    );

    assert_eq!(message.questions.len(), 1);
    assert_eq!(message.answers.len(), 1);
    assert_eq!(message.authority.len(), 0);
    assert_eq!(message.additional.len(), 0);

    assert_eq!(message.questions, vec![question0]);
}

#[test]
fn name_test_unpack() {
    let q0 = q0();
    let r0 = r0();

    let (name, offset) = name::unpack(q0.as_slice(), 0x0C).unwrap();

    assert_eq!(name, ["memoways", "slack", "com"]);
    assert_eq!(offset, 0x20);

    let (name, offset) = name::unpack(r0.as_slice(), 0x0C).unwrap();

    assert_eq!(name, ["memoways", "slack", "com"]);
    assert_eq!(offset, 0x20);

    let (name, offset) = name::unpack(r0.as_slice(), 0x24).unwrap();

    assert_eq!(name, ["memoways", "slack", "com"]);
    assert_eq!(offset, 0x26);
}

#[test]
fn question_test_unpack() {
    let q0 = q0();
    let r0 = r0();

    let (question, offset) = question::unpack(q0.as_slice(), 0x0C).unwrap();

    assert_eq!(offset, 0x24);
    assert_eq!(question, Question { name: memoways(), rrtype: RRType::A, class: Class::IN });

    let (question, offset) = question::unpack(r0.as_slice(), 0x0C).unwrap();

    assert_eq!(offset, 0x24);
    assert_eq!(question, Question { name: memoways(), rrtype: RRType::A, class: Class::IN });
}

#[test]
fn resource_test_unpack() {
    let r0 = r0();

    let (resource, offset) = resource::unpack(r0.as_slice(), 0x24).unwrap();

    assert_eq!(offset, 0x34);
    assert_eq!(
        resource,
        Resource {
            name: memoways(),
            rrtype: RRType::A,
            class: Class::IN,
            ttl: 59,
            rlength: 4,
            rdata: ResourceData::A(0x17, 0x17, 0x74, 0x78),
        }
    );
}
