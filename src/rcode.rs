use vstd::prelude::*;

verus! {

/// A response code: the named codes and catch-alls that together cover every
/// 16-bit value.
#[derive(Clone, Copy, Debug, PartialEq, Eq, Structural)]
pub enum ResponseCode {
    NoError,
    FormErr,
    ServFail,
    NXDomain,
    NotImp,
    Refused,
    YXDomain,
    YXRRSet,
    NXRRSet,
    NotAuth,
    NotZone,
    BADVERSORBADSIG,
    BADKEY,
    BADTIME,
    BADMODE,
    BADNAME,
    BADALG,
    BADTRUNC,
    Reserved,
    Private(u8),
    Unassigned(u16),
}

/// The response code denoted by a 16-bit value.
pub open spec fn rcode_of(value: u16) -> ResponseCode {
    match value {
        0x0000 => ResponseCode::NoError,
        0x0001 => ResponseCode::FormErr,
        0x0002 => ResponseCode::ServFail,
        0x0003 => ResponseCode::NXDomain,
        0x0004 => ResponseCode::NotImp,
        0x0005 => ResponseCode::Refused,
        0x0006 => ResponseCode::YXDomain,
        0x0007 => ResponseCode::YXRRSet,
        0x0008 => ResponseCode::NXRRSet,
        0x0009 => ResponseCode::NotAuth,
        0x000A => ResponseCode::NotZone,
        0x0010 => ResponseCode::BADVERSORBADSIG,
        0x0011 => ResponseCode::BADKEY,
        0x0012 => ResponseCode::BADTIME,
        0x0013 => ResponseCode::BADMODE,
        0x0014 => ResponseCode::BADNAME,
        0x0015 => ResponseCode::BADALG,
        0x0016 => ResponseCode::BADTRUNC,
        0xFFFF => ResponseCode::Reserved,
        n => if n & 0xFF00 == 0x0100 {
            ResponseCode::Private(n as u8)
        } else {
            ResponseCode::Unassigned(n)
        },
    }
}

/// The 16-bit value of a response code.
pub open spec fn rcode_code(r: ResponseCode) -> u16 {
    match r {
        ResponseCode::NoError => 0x0000,
        ResponseCode::FormErr => 0x0001,
        ResponseCode::ServFail => 0x0002,
        ResponseCode::NXDomain => 0x0003,
        ResponseCode::NotImp => 0x0004,
        ResponseCode::Refused => 0x0005,
        ResponseCode::YXDomain => 0x0006,
        ResponseCode::YXRRSet => 0x0007,
        ResponseCode::NXRRSet => 0x0008,
        ResponseCode::NotAuth => 0x0009,
        ResponseCode::NotZone => 0x000A,
        ResponseCode::BADVERSORBADSIG => 0x0010,
        ResponseCode::BADKEY => 0x0011,
        ResponseCode::BADTIME => 0x0012,
        ResponseCode::BADMODE => 0x0013,
        ResponseCode::BADNAME => 0x0014,
        ResponseCode::BADALG => 0x0015,
        ResponseCode::BADTRUNC => 0x0016,
        ResponseCode::Reserved => 0xFFFF,
        ResponseCode::Private(n) => 0x0100 | (n as u16),
        ResponseCode::Unassigned(n) => n,
    }
}

/// Whether a response code is the one its own value classifies to.
pub open spec fn rcode_canonical(r: ResponseCode) -> bool {
    rcode_of(rcode_code(r)) == r
}

/// Classifies a 16-bit response code; every value has exactly one code.
pub fn unpack(value: u16) -> (r: ResponseCode)
    ensures
        r == rcode_of(value),
{
    match value {
        0x0000 => ResponseCode::NoError,
        0x0001 => ResponseCode::FormErr,
        0x0002 => ResponseCode::ServFail,
        0x0003 => ResponseCode::NXDomain,
        0x0004 => ResponseCode::NotImp,
        0x0005 => ResponseCode::Refused,
        0x0006 => ResponseCode::YXDomain,
        0x0007 => ResponseCode::YXRRSet,
        0x0008 => ResponseCode::NXRRSet,
        0x0009 => ResponseCode::NotAuth,
        0x000A => ResponseCode::NotZone,
        0x0010 => ResponseCode::BADVERSORBADSIG,
        0x0011 => ResponseCode::BADKEY,
        0x0012 => ResponseCode::BADTIME,
        0x0013 => ResponseCode::BADMODE,
        0x0014 => ResponseCode::BADNAME,
        0x0015 => ResponseCode::BADALG,
        0x0016 => ResponseCode::BADTRUNC,
        0xFFFF => ResponseCode::Reserved,
        n => if n & 0xFF00 == 0x0100 {
            ResponseCode::Private(n as u8)
        } else {
            ResponseCode::Unassigned(n)
        },
    }
}

impl ResponseCode {
    /// The 16-bit value of this response code.
    pub fn code(&self) -> (r: u16)
        ensures
            r == rcode_code(*self),
    {
        match *self {
            ResponseCode::NoError => 0x0000,
            ResponseCode::FormErr => 0x0001,
            ResponseCode::ServFail => 0x0002,
            ResponseCode::NXDomain => 0x0003,
            ResponseCode::NotImp => 0x0004,
            ResponseCode::Refused => 0x0005,
            ResponseCode::YXDomain => 0x0006,
            ResponseCode::YXRRSet => 0x0007,
            ResponseCode::NXRRSet => 0x0008,
            ResponseCode::NotAuth => 0x0009,
            ResponseCode::NotZone => 0x000A,
            ResponseCode::BADVERSORBADSIG => 0x0010,
            ResponseCode::BADKEY => 0x0011,
            ResponseCode::BADTIME => 0x0012,
            ResponseCode::BADMODE => 0x0013,
            ResponseCode::BADNAME => 0x0014,
            ResponseCode::BADALG => 0x0015,
            ResponseCode::BADTRUNC => 0x0016,
            ResponseCode::Reserved => 0xFFFF,
            ResponseCode::Private(n) => 0x0100 | (n as u16),
            ResponseCode::Unassigned(n) => n,
        }
    }
}

impl Default for ResponseCode {
    fn default() -> (r: ResponseCode)
        ensures
            r == ResponseCode::NoError,
    {
        ResponseCode::NoError
    }
}

/// Every value classifies to a response code whose value is that same value.
pub proof fn lemma_rcode_code_of(value: u16)
    ensures
        rcode_code(rcode_of(value)) == value,
{
    if value & 0xFF00 == 0x0100 {
        assert(0x0100 | ((value as u8) as u16) == value) by (bit_vector)
            requires
                value & 0xFF00 == 0x0100;
    }
}

} // verus!
