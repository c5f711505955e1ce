use vstd::prelude::*;

verus! {

/// A record class: the named classes and catch-alls that together cover every
/// 16-bit code.
#[derive(Clone, Copy, Debug, PartialEq, Eq, Structural)]
pub enum Class {
    IN,
    CH,
    HS,
    NONE,
    Wildcard,
    Unassigned(u16),
    Private(u16),
    Reserved(u16),
}

/// The class denoted by a 16-bit code.
pub open spec fn class_of(value: u16) -> Class {
    match value {
        0x0000 => Class::Reserved(0x0000),
        0x0001 => Class::IN,
        0x0003 => Class::CH,
        0x0004 => Class::HS,
        0x00FE => Class::NONE,
        0x00FF => Class::Wildcard,
        0xFFFF => Class::Reserved(0xFFFF),
        n => if n < 0xFF00 {
            Class::Unassigned(n)
        } else {
            Class::Private(n)
        },
    }
}

/// The 16-bit code of a class.
pub open spec fn class_code(c: Class) -> u16 {
    match c {
        Class::IN => 0x0001,
        Class::CH => 0x0003,
        Class::HS => 0x0004,
        Class::NONE => 0x00FE,
        Class::Wildcard => 0x00FF,
        Class::Unassigned(n) => n,
        Class::Private(n) => n,
        Class::Reserved(n) => n,
    }
}

/// Whether a class value is the one its own code classifies to.
pub open spec fn class_canonical(c: Class) -> bool {
    class_of(class_code(c)) == c
}

/// Classifies a 16-bit class code; every code has exactly one class.
pub fn unpack(value: u16) -> (r: Class)
    ensures
        r == class_of(value),
{
    match value {
        0x0000 => Class::Reserved(0x0000),
        0x0001 => Class::IN,
        0x0003 => Class::CH,
        0x0004 => Class::HS,
        0x00FE => Class::NONE,
        0x00FF => Class::Wildcard,
        0xFFFF => Class::Reserved(0xFFFF),
        n => if n < 0xFF00 {
            Class::Unassigned(n)
        } else {
            Class::Private(n)
        },
    }
}

impl Class {
    /// The 16-bit code of this class.
    pub fn code(&self) -> (r: u16)
        ensures
            r == class_code(*self),
    {
        match *self {
            Class::IN => 0x0001,
            Class::CH => 0x0003,
            Class::HS => 0x0004,
            Class::NONE => 0x00FE,
            Class::Wildcard => 0x00FF,
            Class::Unassigned(n) => n,
            Class::Private(n) => n,
            Class::Reserved(n) => n,
        }
    }
}

impl Default for Class {
    fn default() -> (r: Class)
        ensures
            r == Class::IN,
    {
        Class::IN
    }
}

/// Every code classifies to a class whose code is that same code.
pub proof fn lemma_class_code_of(value: u16)
    ensures
        class_code(class_of(value)) == value,
{
}

} // verus!
