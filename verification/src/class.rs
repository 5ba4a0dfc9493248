//! The class byte (CLA) of a command header.
//!
//! `Class` wraps a validated class byte. Bit 4 (`0x10`) of CLA is the
//! command-chaining bit: the engine alone sets it per physical unit, so a
//! logical command's class byte must not carry it, and the all-ones byte
//! `0xFF` is invalid altogether. The one byte that survives validation but
//! still cannot be chained (setting its chaining bit would turn it into
//! `0xFF`) is `0xEF`; serialization rejects it before emitting anything.

use vstd::prelude::*;

verus! {

/// Error for a class byte that cannot head a logical command.
#[derive(Copy, Clone, Debug, Eq, PartialEq)]
pub struct InvalidClass;

/// A validated class byte of a logical command.
#[derive(Copy, Clone, Debug, Eq, PartialEq)]
pub struct Class {
    byte: u8,
}

impl Class {
    /// The wrapped class byte.
    pub closed spec fn spec_byte(self) -> u8 {
        self.byte
    }

    /// A class byte is acceptable in a logical command when it is not the
    /// invalid byte `0xFF` and does not carry the chaining bit `0x10`.
    pub open spec fn valid_byte(b: u8) -> bool {
        b != 0xff && b & 0x10 == 0
    }

    /// The wrapped byte of a constructed `Class` is always acceptable.
    pub open spec fn wf(self) -> bool {
        Class::valid_byte(self.spec_byte())
    }

    /// Validates a raw class byte.
    pub fn try_from(byte: u8) -> (r: Result<Class, InvalidClass>)
        ensures
            match r {
                Ok(c) => Class::valid_byte(byte) && c.spec_byte() == byte && c.wf(),
                Err(_) => !Class::valid_byte(byte),
            },
    {
        if byte != 0xff && byte & 0x10 == 0 {
            Ok(Class { byte })
        } else {
            Err(InvalidClass)
        }
    }

    /// The raw class byte.
    pub fn byte(&self) -> (r: u8)
        ensures
            r == self.spec_byte(),
    {
        self.byte
    }
}

} // verus!
