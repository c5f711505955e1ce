use couchdns::class::Class;
use couchdns::error::EncodeError;
use couchdns::header::{Header, QueryResponse};
use couchdns::ip::{V4Address, V6Address};
use couchdns::message::Message;
use couchdns::question::Question;
use couchdns::rcode::ResponseCode;
use couchdns::records::{answers_for, lookup_key, CouchRow, DNSRecord, LookupError};
use couchdns::resource::{Resource, ResourceData};
use couchdns::rrtype::RRType;
use couchdns::server::{generate_response, read};

fn row(ty: &str, data: &str, class: &str) -> CouchRow {
    CouchRow {
        id: "doc".to_string(),
        key: vec!["memoways".to_string(), "slack".to_string(), "com".to_string()],
        value: DNSRecord {
            ty: ty.to_string(),
            data: data.to_string(),
            ttl: 59,
            class: class.to_string(),
        },
    }
}

#[test]
fn v4_parses() {
    let a = V4Address::from_str("23.23.116.120").unwrap();
    assert_eq!(a.to_vec(), vec![23, 23, 116, 120]);
    assert_eq!(V4Address::new(&[1, 2, 3, 4]).to_vec(), vec![1, 2, 3, 4]);
}

#[test]
fn v4_rejects() {
    assert!(V4Address::from_str("1.2.3").is_none());
    assert!(V4Address::from_str("1.2.3.4.5").is_none());
    assert!(V4Address::from_str("1.2.3.256").is_none());
    assert!(V4Address::from_str("1..3.4").is_none());
    assert!(V4Address::from_str("1.2.3.x").is_none());
    assert!(V4Address::from_str("").is_none());
}

#[test]
fn v6_parses() {
    let a = V6Address::from_str("2001:db8:0:0:0:0:0:1").unwrap();
    let mut want = vec![0x20, 0x01, 0x0d, 0xb8];
    want.extend(vec![0u8; 11]);
    want.push(1);
    assert_eq!(a.to_vec(), want);
    assert_eq!(V6Address::from_str("2001:db8::1").unwrap().to_vec(), want);
    assert_eq!(V6Address::from_str("::").unwrap().to_vec(), vec![0u8; 16]);
    let mut one = vec![0u8; 15];
    one.push(1);
    assert_eq!(V6Address::from_str("::1").unwrap().to_vec(), one);
    let mut fe = vec![0xFE, 0x80];
    fe.extend(vec![0u8; 14]);
    assert_eq!(V6Address::from_str("FE80::").unwrap().to_vec(), fe);
    assert_eq!(V6Address::new(&[7u8; 16]).to_vec(), vec![7u8; 16]);
}

#[test]
fn v6_rejects() {
    assert!(V6Address::from_str("1:2:3:4:5:6:7").is_none());
    assert!(V6Address::from_str("1:2:3:4:5:6:7:8:9").is_none());
    assert!(V6Address::from_str("1::2::3").is_none());
    assert!(V6Address::from_str(":1:2:3:4:5:6:7").is_none());
    assert!(V6Address::from_str("12345::").is_none());
    assert!(V6Address::from_str("g::").is_none());
    assert!(V6Address::from_str(":::").is_none());
    assert!(V6Address::from_str("1:2:3:4::5:6:7:8").is_none());
    assert!(V6Address::from_str("").is_none());
    assert!(V6Address::from_str("1:2:3:4:5:6:7:").is_none());
}

#[test]
fn key_is_form_encoded_json() {
    let name = vec!["memoways".to_string(), "slack".to_string(), "com".to_string()];
    assert_eq!(lookup_key(&name), "%5B%22memoways%22%2C%22slack%22%2C%22com%22%5D");
    assert_eq!(lookup_key(&vec![]), "%5B%5D");
    assert_eq!(lookup_key(&vec!["a b\"".to_string()]), "%5B%22a+b%5C%22%22%5D");
}

#[test]
fn answers_keep_matching_rows() {
    let rows = vec![row("A", "23.23.116.120", "IN"), row("AAAA", "::1", "IN")];
    let a = answers_for(RRType::A, &rows).unwrap();
    assert_eq!(
        a,
        vec![Resource {
            name: vec!["memoways".to_string(), "slack".to_string(), "com".to_string()],
            rrtype: RRType::A,
            class: Class::IN,
            ttl: 59,
            rlength: 4,
            rdata: ResourceData::A(23, 23, 116, 120),
        }]
    );
    let all = answers_for(RRType::Wildcard, &rows).unwrap();
    assert_eq!(all.len(), 2);
    assert_eq!(all[1].rrtype, RRType::AAAA);
    assert_eq!(all[1].rlength, 16);
    let mut one = vec![0u8; 15];
    one.push(1);
    assert_eq!(all[1].rdata, ResourceData::Raw(one));
    assert_eq!(answers_for(RRType::MX, &rows).unwrap().len(), 0);
}

#[test]
fn answers_errors() {
    assert_eq!(answers_for(RRType::MX, &vec![row("MX", "x", "IN")]), Err(LookupError::InvalidType));
    assert_eq!(answers_for(RRType::A, &vec![row("A", "1.2.3.4", "XX")]), Err(LookupError::InvalidClass));
    assert_eq!(answers_for(RRType::A, &vec![row("A", "1.2.3", "IN")]), Err(LookupError::InvalidAddress));
    assert_eq!(answers_for(RRType::A, &vec![row("A", "1.2.3.4", "CS")]).unwrap()[0].class, Class::Unassigned(2));
}

fn query() -> Message {
    Message {
        header: Header { id: 0x68C4, rd: true, ..Default::default() },
        questions: vec![Question {
            name: vec!["memoways".to_string(), "slack".to_string(), "com".to_string()],
            rrtype: RRType::A,
            class: Class::IN,
        }],
        answers: vec![],
        authority: vec![],
        additional: vec![],
    }
}

#[test]
fn response_echoes_query() {
    let q = query();
    let answers = answers_for(RRType::A, &vec![row("A", "23.23.116.120", "IN")]);
    let r = generate_response(&q, answers.ok());
    assert_eq!(r.header, Header { id: 0x68C4, qr: QueryResponse::Response, rd: true, ..Default::default() });
    assert_eq!(r.questions, q.questions);
    assert_eq!(r.answers.len(), 1);
    let bytes = couchdns::server::write(&r).unwrap();
    let back = read(&bytes, bytes.len()).unwrap();
    assert_eq!(back, r);
}

#[test]
fn failed_lookup_gives_server_failure() {
    let q = query();
    let r = generate_response(&q, None);
    assert_eq!(r.header.rcode, ResponseCode::ServFail);
    assert!(r.answers.is_empty());
    assert_eq!(r.questions, q.questions);
}

#[test]
fn oversized_response_is_refused() {
    let mut q = query();
    for _ in 0..40 {
        q.questions.push(q.questions[0].clone());
    }
    assert_eq!(couchdns::server::write(&q), Err(EncodeError::TooLarge));
}

#[test]
fn read_uses_length() {
    let mut buf = vec![0x68u8, 0xC4, 0x01, 0x00, 0, 0, 0, 0, 0, 0, 0, 0];
    buf.extend(vec![0xAAu8; 20]);
    let m = read(&buf, 12).unwrap();
    assert_eq!(m.header.id, 0x68C4);
    assert!(read(&buf, 11).is_err());
}
