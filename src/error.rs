use vstd::prelude::*;

verus! {

/// Why a packet could not be decoded.
#[derive(Clone, Copy, Debug, PartialEq, Eq, Structural)]
pub enum DecodeError {
    /// The buffer ends before a field that must be read, or a record is
    /// inconsistent with its declared length.
    MalformedMessage,
    /// A label is not valid UTF-8, its length byte is reserved, or a
    /// compression pointer does not point strictly backwards.
    MalformedName,
}

/// Why a value could not be encoded.
#[derive(Clone, Copy, Debug, PartialEq, Eq, Structural)]
pub enum EncodeError {
    /// A label is empty or longer than 63 bytes.
    LabelLength,
    /// Record data longer than 65535 bytes.
    RdataLength,
    /// A section holds more than 65535 entries.
    SectionLength,
    /// The encoded message does not fit in one datagram.
    TooLarge,
}

} // verus!
