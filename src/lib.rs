//! A DNS message codec: wire-format decoding and encoding of headers,
//! questions, resource records and whole messages, with exact contracts.
pub mod class;
pub mod error;
pub mod header;
pub mod ip;
pub mod message;
pub mod name;
pub mod op;
pub mod question;
pub mod records;
pub mod rcode;
pub mod resource;
pub mod rrtype;
pub mod server;
pub mod wire;
