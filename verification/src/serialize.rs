//! The serializer and chaining engine: converts a logical command into one
//! or more physical APDU byte sequences, obeying writer capacity and
//! extended-support constraints, and produces a resumable continuation when
//! it cannot finish.
//!
//! Each call emits at most one physical unit. The encoding mode (short or
//! extended) is decided once from the whole logical command, before the
//! first byte is emitted, and never re-evaluated mid-chain. A unit is sized
//! against the writer's advertised remaining capacity; when not even a
//! minimal unit fits, the maximal unit is planned and streamed across
//! writer calls, resuming inside the same unit.

use vstd::prelude::*;
use vstd::slice::slice_subrange;

use crate::command::Command;
use crate::wire::le_clamped;
use crate::wire::mode_cap;
use crate::wire::plan;
use crate::wire::unit_of;
use crate::wire::uses_extended;
use crate::writer::Writer;

verus! {

/// What a serialize call can fail with: the pathological class byte that
/// cannot be chained, rejected before any output, or an error of the writer
/// itself, propagated verbatim.
#[derive(Debug, Eq, PartialEq)]
pub enum SerializeError<E> {
    /// The class byte whose chaining bit collides with the invalid class
    /// byte; rejected before any bytes are written.
    InvalidClass,
    /// An unrecoverable failure reported by the writer.
    Writer(E),
}

/// The unit currently being emitted: its full bytes and how many of them
/// the writers accepted so far.
pub struct CurrentUnit {
    /// The complete bytes of the unit in play.
    pub bytes: Vec<u8>,
    /// How many of `bytes` have been accepted already.
    pub pos: usize,
    /// How many payload bytes the unit carries.
    pub chunk: usize,
    /// Whether this is the final unit of the command.
    pub last: bool,
}

/// The serializer's resume state: the logical command, how many payload
/// bytes completed units have covered, the committed encoding mode, and —
/// when a writer boundary was hit mid-unit — the unit to finish first.
pub struct Continuation {
    /// The logical command being emitted.
    pub cmd: Command,
    /// Payload bytes already covered by completed units.
    pub sent: usize,
    /// The committed encoding mode: decided before the first byte, never
    /// re-evaluated mid-chain.
    pub extended: bool,
    /// The unit interrupted by a writer-capacity boundary, if any; `None`
    /// when the next call starts a fresh unit.
    pub cur: Option<CurrentUnit>,
}

impl Continuation {
    /// Validity of a resume state: the command is well formed and not the
    /// pathological class, completed units cover a prefix of the payload,
    /// and any interrupted unit is exactly the planned unit at the current
    /// position.
    pub open spec fn wf(self) -> bool {
        &&& self.cmd.wf()
        &&& self.cmd@.cla != 0xef
        &&& self.sent <= self.cmd@.data.len()
        &&& match self.cur {
            None => true,
            Some(cu) => {
                &&& cu.pos < cu.bytes@.len()
                &&& self.sent + cu.chunk <= self.cmd@.data.len()
                &&& (cu.last ==> self.sent + cu.chunk == self.cmd@.data.len())
                &&& (!cu.last ==> 1 <= cu.chunk)
                &&& cu.chunk <= mode_cap(self.extended)
                &&& cu.bytes@ == unit_of(
                    self.cmd@,
                    self.extended,
                    self.sent as int,
                    cu.chunk as int,
                    cu.last,
                )
            },
        }
    }

    /// The payload chunk of the unit in play, given the writer's advertised
    /// capacity `a` (the planning input when no unit is interrupted).
    pub open spec fn step_chunk(self, a: int) -> int {
        match self.cur {
            Some(cu) => cu.chunk as int,
            None => plan(
                self.cmd@.data.len() - self.sent,
                le_clamped(self.cmd@.le, self.extended),
                self.extended,
                a,
            ).0,
        }
    }

    /// Whether the unit in play is the final unit of the command.
    pub open spec fn step_last(self, a: int) -> bool {
        match self.cur {
            Some(cu) => cu.last,
            None => plan(
                self.cmd@.data.len() - self.sent,
                le_clamped(self.cmd@.le, self.extended),
                self.extended,
                a,
            ).1,
        }
    }

    /// The complete bytes of the unit in play.
    pub open spec fn step_bytes(self, a: int) -> Seq<u8> {
        match self.cur {
            Some(cu) => cu.bytes@,
            None => unit_of(
                self.cmd@,
                self.extended,
                self.sent as int,
                self.step_chunk(a),
                self.step_last(a),
            ),
        }
    }

    /// How many bytes of the unit in play were already accepted.
    pub open spec fn step_pos(self) -> int {
        match self.cur {
            Some(cu) => cu.pos as int,
            None => 0,
        }
    }

    /// Resumes emission into a fresh writer: writes the next bytes of the
    /// unit in play (planning it first when none is interrupted), and
    /// reports completion, a further continuation, or the writer's error.
    pub fn serialize_into<W: Writer>(self, w: &mut W) -> (r: Result<
        Result<(), Continuation>,
        W::Error,
    >)
        requires
            self.wf(),
        ensures
            ({
                let a = old(w).avail() as int;
                let ub = self.step_bytes(a);
                let pos = self.step_pos();
                let chunk = self.step_chunk(a);
                let last = self.step_last(a);
                match r {
                    Err(_) => true,
                    Ok(done) => {
                        let n = final(w).buffered().len() - old(w).buffered().len();
                        &&& pos + n <= ub.len()
                        &&& final(w).buffered() == old(w).buffered() + ub.subrange(pos, pos + n)
                        &&& match done {
                            Ok(()) => pos + n == ub.len() && last,
                            Err(c) => {
                                &&& c.wf()
                                &&& c.cmd@ == self.cmd@
                                &&& c.extended == self.extended
                                &&& if pos + n == ub.len() {
                                    &&& !last
                                    &&& c.sent == self.sent + chunk
                                    &&& c.cur is None
                                } else {
                                    &&& c.sent == self.sent
                                    &&& match c.cur {
                                        Some(cu) => cu.bytes@ == ub && cu.pos == pos + n
                                            && cu.chunk == chunk && cu.last == last,
                                        None => false,
                                    }
                                }
                            },
                        }
                    },
                }
            }),
    {
        let Continuation { cmd, sent, extended, cur } = self;
        let (bytes, pos, chunk, last): (Vec<u8>, usize, usize, bool) = match cur {
            Some(cu) => (cu.bytes, cu.pos, cu.chunk, cu.last),
            None => {
                let rem = cmd.data.len() - sent;
                let le = if extended {
                    cmd.le
                } else if cmd.le <= 256 {
                    cmd.le
                } else {
                    256
                };
                let avail = w.remaining_len();
                let (chunk, last) = plan_unit(rem, le, extended, avail);
                let ub = build_unit(&cmd, sent, chunk, last, extended);
                (ub, 0, chunk, last)
            },
        };
        let tail = slice_subrange(bytes.as_slice(), pos, bytes.len());
        match w.write(tail) {
            Err(e) => Err(e),
            Ok(n) => {
                proof {
                    assert(bytes@.subrange(pos as int, bytes@.len() as int).take(n as int)
                        =~= bytes@.subrange(pos as int, pos + n));
                }
                let newpos = pos + n;
                if newpos == bytes.len() {
                    if last {
                        Ok(Ok(()))
                    } else {
                        Ok(Err(Continuation { cmd, sent: sent + chunk, extended, cur: None }))
                    }
                } else {
                    Ok(
                        Err(
                            Continuation {
                                cmd,
                                sent,
                                extended,
                                cur: Some(CurrentUnit { bytes, pos: newpos, chunk, last }),
                            },
                        ),
                    )
                }
            },
        }
    }
}

impl Command {
    /// Serializes the command into the writer with the declared
    /// extended-support flag. The pathological class byte is rejected
    /// before any output. Otherwise one (possibly partial) physical unit is
    /// emitted: on full emission of the command's final unit the call
    /// reports completion, else it yields the continuation to resume with.
    pub fn serialize_into<W: Writer>(self, w: &mut W, extended_supported: bool) -> (r: Result<
        Result<(), Continuation>,
        SerializeError<W::Error>,
    >)
        requires
            self.wf(),
        ensures
            ({
                let m = self@;
                let ext = uses_extended(m, extended_supported);
                let a = old(w).avail() as int;
                let chunk = plan(m.data.len() as int, le_clamped(m.le, ext), ext, a).0;
                let last = plan(m.data.len() as int, le_clamped(m.le, ext), ext, a).1;
                let ub = unit_of(m, ext, 0, chunk, last);
                if m.cla == 0xef {
                    &&& r matches Err(SerializeError::InvalidClass)
                    &&& final(w).buffered() == old(w).buffered()
                } else {
                    match r {
                        Err(e) => e matches SerializeError::Writer(_),
                        Ok(done) => {
                            let n = final(w).buffered().len() - old(w).buffered().len();
                            &&& n <= ub.len()
                            &&& final(w).buffered() == old(w).buffered() + ub.subrange(0, n)
                            &&& match done {
                                Ok(()) => n == ub.len() && last,
                                Err(c) => {
                                    &&& c.wf()
                                    &&& c.cmd@ == m
                                    &&& c.extended == ext
                                    &&& if n == ub.len() {
                                        &&& !last
                                        &&& c.sent == chunk
                                        &&& c.cur is None
                                    } else {
                                        &&& c.sent == 0
                                        &&& match c.cur {
                                            Some(cu) => cu.bytes@ == ub && cu.pos == n
                                                && cu.chunk == chunk && cu.last == last,
                                            None => false,
                                        }
                                    }
                                },
                            }
                        },
                    }
                }
            }),
    {
        if self.class.byte() == 0xef {
            return Err(SerializeError::InvalidClass);
        }
        let ext = extended_supported && (self.data.len() > 255 || self.le > 256);
        let cont = Continuation { cmd: self, sent: 0, extended: ext, cur: None };
        match cont.serialize_into(w) {
            Ok(done) => Ok(done),
            Err(e) => Err(SerializeError::Writer(e)),
        }
    }
}

impl Command {
    /// Serializes the whole command at once, as a writer of unbounded
    /// capacity would see it: every unit takes the maximal chunk of the
    /// chosen mode. Only the pathological class byte is rejected, before
    /// any byte is produced.
    pub fn serialize_to_vec(&self, extended_supported: bool) -> (r: Result<
        Vec<u8>,
        crate::class::InvalidClass,
    >)
        requires
            self.wf(),
        ensures
            match r {
                Ok(v) => self@.cla != 0xef && v@ == crate::wire::full_wire(
                    self@,
                    uses_extended(self@, extended_supported),
                    0,
                ),
                Err(_) => self@.cla == 0xef,
            },
    {
        if self.class.byte() == 0xef {
            return Err(crate::class::InvalidClass);
        }
        let ext = extended_supported && (self.data.len() > 255 || self.le > 256);
        let cap: usize = if ext {
            65535
        } else {
            255
        };
        let mut out: Vec<u8> = Vec::new();
        let mut sent: usize = 0;
        while self.data.len() - sent > cap
            invariant
                self.wf(),
                sent <= self@.data.len(),
                cap == mode_cap(ext),
                out@ + crate::wire::full_wire(self@, ext, sent as int) == crate::wire::full_wire(
                    self@,
                    ext,
                    0,
                ),
            decreases self@.data.len() - sent,
        {
            let mut u = build_unit(self, sent, cap, false, ext);
            proof {
                assert(out@ + u@ + crate::wire::full_wire(self@, ext, sent + cap as int) =~= out@
                    + crate::wire::full_wire(self@, ext, sent as int));
            }
            out.append(&mut u);
            sent = sent + cap;
        }
        let rem = self.data.len() - sent;
        let mut u = build_unit(self, sent, rem, true, ext);
        out.append(&mut u);
        proof {
            assert(out@ =~= crate::wire::full_wire(self@, ext, 0));
        }
        Ok(out)
    }
}

/// Sizes the next unit against the writer's advertised remaining capacity.
/// `le` is the already clamped expected length of the committed mode.
fn plan_unit(rem: usize, le: u32, extended: bool, avail: usize) -> (r: (usize, bool))
    requires
        rem <= 65535,
        le <= 65536,
    ensures
        r.0 as int == plan(rem as int, le as int, extended, avail as int).0,
        r.1 == plan(rem as int, le as int, extended, avail as int).1,
{
    let cap: usize = if extended {
        65535
    } else {
        255
    };
    let cf: usize = if rem <= cap {
        rem
    } else {
        cap
    };
    if cf == rem {
        let lc_len: usize = if rem == 0 {
            0
        } else if extended {
            3
        } else {
            1
        };
        let le_len: usize = if le == 0 {
            0
        } else if !extended {
            1
        } else if rem > 0 {
            2
        } else {
            3
        };
        let ful: usize = 4 + lc_len + rem + le_len;
        if ful <= avail {
            return (rem, true);
        }
    }
    let oh: usize = if extended {
        7
    } else {
        5
    };
    let fit: usize = if avail > oh {
        let room = avail - oh;
        if cf <= room {
            cf
        } else {
            room
        }
    } else {
        0
    };
    if fit >= 1 {
        (fit, false)
    } else {
        (cf, cf == rem)
    }
}

/// Builds the complete bytes of one unit: header (with the chaining bit set
/// on a non-final unit), Lc, the payload chunk, and Le on the final unit.
fn build_unit(cmd: &Command, sent: usize, chunk: usize, last: bool, extended: bool) -> (r: Vec<u8>)
    requires
        cmd.wf(),
        sent + chunk <= cmd@.data.len(),
        chunk <= mode_cap(extended),
    ensures
        r@ == unit_of(cmd@, extended, sent as int, chunk as int, last),
{
    let cla = if last {
        cmd.class.byte()
    } else {
        cmd.class.byte() | 0x10
    };
    let mut v: Vec<u8> = Vec::new();
    v.push(cla);
    v.push(cmd.instruction);
    v.push(cmd.p1);
    v.push(cmd.p2);
    if chunk > 0 {
        if extended {
            v.push(0);
            v.push((chunk / 256) as u8);
            v.push((chunk % 256) as u8);
        } else {
            v.push(chunk as u8);
        }
    }
    let ghost prefix = v@;
    proof {
        assert(prefix =~= seq![cla, cmd@.ins, cmd@.p1, cmd@.p2] + crate::wire::lc_bytes(
            chunk as int,
            extended,
        ));
    }
    let mut i: usize = 0;
    while i < chunk
        invariant
            i <= chunk,
            sent + chunk <= cmd@.data.len(),
            cmd@.data.len() <= 65535,
            v@ == prefix + cmd@.data.subrange(sent as int, sent + i),
        decreases chunk - i,
    {
        v.push(cmd.data[sent + i]);
        proof {
            assert(cmd@.data.subrange(sent as int, sent + i + 1) =~= cmd@.data.subrange(
                sent as int,
                sent + i,
            ) + seq![cmd@.data[sent + i]]);
        }
        i = i + 1;
    }
    let le_v: u32 = if !last {
        0
    } else if extended {
        cmd.le
    } else if cmd.le <= 256 {
        cmd.le
    } else {
        256
    };
    if le_v > 0 {
        if !extended {
            v.push((le_v % 256) as u8);
        } else {
            let lv = le_v % 65536;
            if chunk == 0 {
                v.push(0);
            }
            v.push((lv / 256) as u8);
            v.push((lv % 256) as u8);
        }
    }
    proof {
        let le_s: int = if last {
            le_clamped(cmd@.le, extended)
        } else {
            0
        };
        assert(le_v as int == le_s);
        assert(v@ =~= prefix + cmd@.data.subrange(sent as int, sent + chunk) + crate::wire::le_bytes(
            le_s,
            chunk > 0,
            extended,
        ));
        assert(v@ =~= unit_of(cmd@, extended, sent as int, chunk as int, last));
    }
    v
}

} // verus!
