//! The wire format of one physical APDU, as specification functions: the
//! byte layout of a unit (header, Lc, payload, Le, in short or extended
//! form), the planning rule that sizes one unit against a writer's remaining
//! capacity, and the grammar that parses one unit's bytes back.

use vstd::prelude::*;

use crate::command::CommandModel;

verus! {

/// The smaller of two integers.
pub open spec fn min_int(a: int, b: int) -> int {
    if a <= b {
        a
    } else {
        b
    }
}

/// The chaining bit of the class byte: set on every non-final unit of a
/// chain.
pub open spec fn chaining_bit() -> u8 {
    0x10
}

/// The largest payload one unit of the given form can carry.
pub open spec fn mode_cap(extended: bool) -> int {
    if extended {
        65535
    } else {
        255
    }
}

/// The expected length actually encoded: the extended form carries it
/// unchanged, the short form clamps it to 256 (a defined normalization, not
/// an error).
pub open spec fn le_clamped(le: int, extended: bool) -> int {
    if extended {
        le
    } else {
        min_int(le, 256)
    }
}

/// Whether a whole logical command requires the extended form: the payload
/// exceeds one short unit or the expected length exceeds the short ceiling,
/// and the caller declared extended support.
pub open spec fn uses_extended(m: CommandModel, extended_supported: bool) -> bool {
    extended_supported && (m.data.len() > 255 || m.le > 256)
}

/// The bytes of the Lc (payload length) field for a payload of `n` bytes:
/// absent when there is no payload, one byte in short form, `0x00` plus a
/// big-endian pair in extended form.
pub open spec fn lc_bytes(n: int, extended: bool) -> Seq<u8> {
    if n == 0 {
        seq![]
    } else if extended {
        seq![0u8, (n / 256) as u8, (n % 256) as u8]
    } else {
        seq![n as u8]
    }
}

/// The bytes of the Le (expected length) field: absent when `le` is zero;
/// one byte in short form where `0x00` encodes 256; in extended form two
/// big-endian bytes after an Lc, or `0x00` plus two bytes when the unit has
/// no payload, where `0x0000` encodes 65536.
pub open spec fn le_bytes(le: int, has_data: bool, extended: bool) -> Seq<u8> {
    if le == 0 {
        seq![]
    } else if !extended {
        seq![(le % 256) as u8]
    } else {
        let v = le % 65536;
        if has_data {
            seq![(v / 256) as u8, (v % 256) as u8]
        } else {
            seq![0u8, (v / 256) as u8, (v % 256) as u8]
        }
    }
}

/// The full byte sequence of one physical unit:
/// `CLA INS P1 P2 [Lc] [DATA] [Le]`.
pub open spec fn unit_bytes(
    cla: u8,
    ins: u8,
    p1: u8,
    p2: u8,
    data: Seq<u8>,
    le: int,
    extended: bool,
) -> Seq<u8> {
    seq![cla, ins, p1, p2] + lc_bytes(data.len() as int, extended) + data + le_bytes(
        le,
        data.len() > 0,
        extended,
    )
}

/// The bytes of the unit that covers `chunk` payload bytes starting at
/// `sent`: a non-final unit carries the chaining bit and no Le; the final
/// unit carries the command's own class and its (possibly clamped) expected
/// length.
pub open spec fn unit_of(m: CommandModel, extended: bool, sent: int, chunk: int, last: bool) -> Seq<
    u8,
> {
    unit_bytes(
        if last {
            m.cla
        } else {
            m.cla | chaining_bit()
        },
        m.ins,
        m.p1,
        m.p2,
        m.data.subrange(sent, sent + chunk),
        if last {
            le_clamped(m.le, extended)
        } else {
            0
        },
        extended,
    )
}

/// Header plus Lc overhead of a unit that carries payload.
pub open spec fn lc_overhead(extended: bool) -> int {
    if extended {
        7
    } else {
        5
    }
}

/// The total length of the final unit of a command whose remaining payload
/// is `rem` bytes and whose (already clamped) expected length is `le`.
pub open spec fn final_unit_len(rem: int, le: int, extended: bool) -> int {
    let lc_len: int = if rem == 0 {
        0
    } else if extended {
        3
    } else {
        1
    };
    let le_len: int = if le == 0 {
        0
    } else if !extended {
        1
    } else if rem > 0 {
        2
    } else {
        3
    };
    4 + lc_len + rem + le_len
}

/// Sizes the next unit against the writer's advertised remaining capacity
/// `avail`, for `rem` remaining payload bytes and (clamped) expected length
/// `le`. Returns the payload chunk of the unit and whether it is the final
/// unit of the command. The whole remainder is emitted as the final unit
/// when it fits; otherwise the largest chunk that fits is emitted as a
/// chained unit; when not even one payload byte fits, the maximal unit is
/// planned and streamed across writers.
pub open spec fn plan(rem: int, le: int, extended: bool, avail: int) -> (int, bool) {
    let cap = mode_cap(extended);
    let cf = min_int(rem, cap);
    if cf == rem && final_unit_len(rem, le, extended) <= avail {
        (rem, true)
    } else {
        let fit = if avail - lc_overhead(extended) >= 1 {
            min_int(cf, avail - lc_overhead(extended))
        } else {
            0
        };
        if fit >= 1 {
            (fit, false)
        } else {
            (cf, cf == rem)
        }
    }
}

/// The whole wire stream of a command from payload offset `sent` on, when
/// every unit takes the maximal chunk its mode allows (the chunking a writer
/// of unbounded capacity yields).
pub open spec fn full_wire(m: CommandModel, ext: bool, sent: int) -> Seq<u8>
    decreases m.data.len() - sent,
{
    let rem = m.data.len() - sent;
    let cap = mode_cap(ext);
    if rem <= cap {
        unit_of(m, ext, sent, rem, true)
    } else {
        unit_of(m, ext, sent, cap, false) + full_wire(m, ext, sent + cap)
    }
}

/// The parsed view of one physical unit.
#[verifier::ext_equal]
pub struct UnitModel {
    /// The raw class byte, chaining bit included.
    pub cla: u8,
    /// The instruction byte.
    pub ins: u8,
    /// Parameter byte 1.
    pub p1: u8,
    /// Parameter byte 2.
    pub p2: u8,
    /// The unit's payload.
    pub data: Seq<u8>,
    /// The decoded expected response length, `0..=65536`.
    pub le: int,
    /// Whether the unit used the extended encoding.
    pub extended: bool,
}

impl UnitModel {
    /// Whether the chaining bit is set: more units of the chain follow.
    pub open spec fn chaining(self) -> bool {
        self.cla & chaining_bit() != 0
    }
}

/// Decodes one short Le byte: `0x00` encodes 256.
pub open spec fn short_le(b: u8) -> int {
    if b == 0 {
        256
    } else {
        b as int
    }
}

/// Decodes one extended Le pair: `0x0000` encodes 65536.
pub open spec fn extended_le(hi: u8, lo: u8) -> int {
    if hi == 0 && lo == 0 {
        65536
    } else {
        hi as int * 256 + lo as int
    }
}

/// The grammar of one physical unit: decodes header, Lc, payload and Le, or
/// yields `None` when the declared lengths disagree with the bytes at hand.
pub open spec fn parse_spec(b: Seq<u8>) -> Option<UnitModel> {
    if b.len() < 4 {
        None
    } else {
        let cla = b[0];
        let ins = b[1];
        let p1 = b[2];
        let p2 = b[3];
        let rest = b.skip(4);
        if rest.len() == 0 {
            Some(UnitModel { cla, ins, p1, p2, data: seq![], le: 0, extended: false })
        } else if rest.len() == 1 {
            Some(UnitModel { cla, ins, p1, p2, data: seq![], le: short_le(rest[0]), extended: false })
        } else if rest[0] != 0 {
            let lc = rest[0] as int;
            if rest.len() == 1 + lc {
                Some(
                    UnitModel {
                        cla,
                        ins,
                        p1,
                        p2,
                        data: rest.subrange(1, 1 + lc),
                        le: 0,
                        extended: false,
                    },
                )
            } else if rest.len() == 2 + lc {
                Some(
                    UnitModel {
                        cla,
                        ins,
                        p1,
                        p2,
                        data: rest.subrange(1, 1 + lc),
                        le: short_le(rest[1 + lc]),
                        extended: false,
                    },
                )
            } else {
                None
            }
        } else if rest.len() == 2 {
            None
        } else if rest.len() == 3 {
            Some(
                UnitModel {
                    cla,
                    ins,
                    p1,
                    p2,
                    data: seq![],
                    le: extended_le(rest[1], rest[2]),
                    extended: true,
                },
            )
        } else {
            let lc = rest[1] as int * 256 + rest[2] as int;
            if lc == 0 {
                None
            } else if rest.len() == 3 + lc {
                Some(
                    UnitModel {
                        cla,
                        ins,
                        p1,
                        p2,
                        data: rest.subrange(3, 3 + lc),
                        le: 0,
                        extended: true,
                    },
                )
            } else if rest.len() == 5 + lc {
                Some(
                    UnitModel {
                        cla,
                        ins,
                        p1,
                        p2,
                        data: rest.subrange(3, 3 + lc),
                        le: extended_le(rest[3 + lc], rest[4 + lc]),
                        extended: true,
                    },
                )
            } else {
                None
            }
        }
    }
}

} // verus!
