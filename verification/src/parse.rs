//! The zero-copy parser: decodes the raw bytes of exactly one physical unit
//! into a view that borrows the payload from the caller's receive buffer.

use vstd::prelude::*;
use vstd::slice::slice_subrange;

use crate::wire::extended_le;
use crate::wire::parse_spec;
use crate::wire::short_le;
use crate::wire::UnitModel;

verus! {

/// Malformed unit bytes: a declared length disagrees with the actual
/// remaining byte count, or extended and short length markers conflict.
#[derive(Copy, Clone, Debug, Eq, PartialEq)]
pub struct ParseError;

/// One parsed physical unit, borrowing its payload from the receive buffer
/// it was parsed from.
pub struct CommandView<'a> {
    /// The raw class byte, chaining bit included.
    pub cla: u8,
    /// The instruction byte.
    pub ins: u8,
    /// Parameter byte 1.
    pub p1: u8,
    /// Parameter byte 2.
    pub p2: u8,
    /// The unit's payload, borrowed from the parsed buffer.
    pub data: &'a [u8],
    /// The decoded expected response length, `0..=65536`.
    pub le: u32,
    /// Whether the unit used the extended encoding.
    pub extended: bool,
}

impl<'a> View for CommandView<'a> {
    type V = UnitModel;

    open spec fn view(&self) -> UnitModel {
        UnitModel {
            cla: self.cla,
            ins: self.ins,
            p1: self.p1,
            p2: self.p2,
            data: self.data@,
            le: self.le as int,
            extended: self.extended,
        }
    }
}

impl<'a> CommandView<'a> {
    /// Parses the raw bytes of exactly one physical unit.
    pub fn parse(bytes: &'a [u8]) -> (r: Result<CommandView<'a>, ParseError>)
        ensures
            match r {
                Ok(v) => parse_spec(bytes@) == Some(v@),
                Err(_) => parse_spec(bytes@) is None,
            },
    {
        if bytes.len() < 4 {
            return Err(ParseError);
        }
        let cla = bytes[0];
        let ins = bytes[1];
        let p1 = bytes[2];
        let p2 = bytes[3];
        let restlen = bytes.len() - 4;
        let ghost rest = bytes@.skip(4);
        if restlen == 0 {
            let v = CommandView {
                cla,
                ins,
                p1,
                p2,
                data: slice_subrange(bytes, 4, 4),
                le: 0,
                extended: false,
            };
            proof {
                assert(parse_spec(bytes@) =~= Some(v@));
            }
            Ok(v)
        } else if restlen == 1 {
            let b = bytes[4];
            let le: u32 = if b == 0 {
                256
            } else {
                b as u32
            };
            let v = CommandView {
                cla,
                ins,
                p1,
                p2,
                data: slice_subrange(bytes, 4, 4),
                le,
                extended: false,
            };
            proof {
                assert(le as int == short_le(rest[0]));
                assert(parse_spec(bytes@) =~= Some(v@));
            }
            Ok(v)
        } else if bytes[4] != 0 {
            let lc = bytes[4] as usize;
            if restlen == 1 + lc || restlen == 2 + lc {
                let data = slice_subrange(bytes, 5, 5 + lc);
                let le: u32 = if restlen == 1 + lc {
                    0
                } else {
                    let b = bytes[5 + lc];
                    if b == 0 {
                        256
                    } else {
                        b as u32
                    }
                };
                let v = CommandView { cla, ins, p1, p2, data, le, extended: false };
                proof {
                    assert(data@ =~= rest.subrange(1, 1 + lc as int));
                    assert(restlen == 2 + lc ==> le as int == short_le(rest[1 + lc as int]));
                    assert(parse_spec(bytes@) =~= Some(v@));
                }
                Ok(v)
            } else {
                Err(ParseError)
            }
        } else if restlen == 2 {
            Err(ParseError)
        } else if restlen == 3 {
            let hi = bytes[5];
            let lo = bytes[6];
            let le: u32 = if hi == 0 && lo == 0 {
                65536
            } else {
                hi as u32 * 256 + lo as u32
            };
            let v = CommandView {
                cla,
                ins,
                p1,
                p2,
                data: slice_subrange(bytes, 4, 4),
                le,
                extended: true,
            };
            proof {
                assert(le as int == extended_le(rest[1], rest[2]));
                assert(parse_spec(bytes@) =~= Some(v@));
            }
            Ok(v)
        } else {
            let lc = bytes[5] as usize * 256 + bytes[6] as usize;
            if lc == 0 {
                return Err(ParseError);
            }
            if restlen == 3 + lc || restlen == 5 + lc {
                let data = slice_subrange(bytes, 7, 7 + lc);
                let le: u32 = if restlen == 3 + lc {
                    0
                } else {
                    let hi = bytes[7 + lc];
                    let lo = bytes[8 + lc];
                    if hi == 0 && lo == 0 {
                        65536
                    } else {
                        hi as u32 * 256 + lo as u32
                    }
                };
                let v = CommandView { cla, ins, p1, p2, data, le, extended: true };
                proof {
                    assert(data@ =~= rest.subrange(3, 3 + lc as int));
                    assert(restlen == 5 + lc ==> le as int == extended_le(
                        rest[3 + lc as int],
                        rest[4 + lc as int],
                    ));
                    assert(parse_spec(bytes@) =~= Some(v@));
                }
                Ok(v)
            } else {
                Err(ParseError)
            }
        }
    }

    /// The unit's payload.
    pub fn data(&self) -> (r: &'a [u8])
        ensures
            r@ == self@.data,
    {
        self.data
    }

    /// Whether the chaining bit is set: more units of this chain follow.
    pub fn chaining(&self) -> (r: bool)
        ensures
            r == self@.chaining(),
    {
        self.cla & 0x10 != 0
    }

    /// Whether the unit used the extended encoding.
    pub fn extended(&self) -> (r: bool)
        ensures
            r == self@.extended,
    {
        self.extended
    }
}

} // verus!
