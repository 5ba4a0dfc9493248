//! The reassembly accumulator: a fixed-capacity owned buffer that folds a
//! chain of parsed views back into one logical command, enforcing capacity
//! and header consistency.

use vstd::prelude::*;

use crate::parse::CommandView;
use crate::wire::UnitModel;

verus! {

/// What folding one more view reports: the chain continues, or the final
/// unit was folded in.
#[derive(Copy, Clone, Debug, Eq, PartialEq)]
pub enum ChainStatus {
    /// The chaining bit was set: more units are expected.
    Continuing,
    /// A unit without the chaining bit was folded in: the command is whole.
    Complete,
}

/// Why reassembly failed; the accumulator must be discarded and the chain
/// re-received, not patched.
#[derive(Copy, Clone, Debug, Eq, PartialEq)]
pub enum ReassemblyError {
    /// A later unit disagreed with the seeded class (chaining bit masked
    /// off), instruction, P1 or P2.
    HeaderMismatch,
    /// Appending the unit's payload would exceed the fixed capacity.
    CapacityExceeded,
    /// A unit was folded in after the final unit had already been seen.
    AlreadyComplete,
}

/// The mathematical state of an accumulator.
#[verifier::ext_equal]
pub struct AccState {
    /// Whether a first unit has seeded the header fields.
    pub started: bool,
    /// Whether the final (non-chained) unit has been folded in.
    pub complete: bool,
    /// The seeded class byte, chaining bit masked off.
    pub cla: u8,
    /// The seeded instruction byte.
    pub ins: u8,
    /// The seeded parameter byte 1.
    pub p1: u8,
    /// The seeded parameter byte 2.
    pub p2: u8,
    /// The payload accumulated so far.
    pub data: Seq<u8>,
    /// The expected response length of the last unit folded in.
    pub le: int,
}

/// The empty accumulator state, before the first unit.
pub open spec fn acc_empty() -> AccState {
    AccState { started: false, complete: false, cla: 0, ins: 0, p1: 0, p2: 0, data: seq![], le: 0 }
}

/// One reassembly step: what folding the view `u` into state `s` under
/// capacity `cap` yields. The first unit seeds the header fields (chaining
/// bit masked off); every unit must agree with them; payloads are
/// concatenated in order and never silently truncated; only the last unit's
/// expected length is kept.
pub open spec fn fold_step(s: AccState, u: UnitModel, cap: int) -> Result<
    AccState,
    ReassemblyError,
> {
    let masked = u.cla & 0xef;
    if s.complete {
        Err(ReassemblyError::AlreadyComplete)
    } else if s.started && !(masked == s.cla && u.ins == s.ins && u.p1 == s.p1 && u.p2 == s.p2) {
        Err(ReassemblyError::HeaderMismatch)
    } else if s.data.len() + u.data.len() > cap {
        Err(ReassemblyError::CapacityExceeded)
    } else {
        Ok(
            AccState {
                started: true,
                complete: !u.chaining(),
                cla: masked,
                ins: u.ins,
                p1: u.p1,
                p2: u.p2,
                data: s.data + u.data,
                le: u.le,
            },
        )
    }
}

/// Folding a whole sequence of views, stopping at the first failure.
pub open spec fn fold_units(s: AccState, us: Seq<UnitModel>, cap: int) -> Result<
    AccState,
    ReassemblyError,
>
    decreases us.len(),
{
    if us.len() == 0 {
        Ok(s)
    } else {
        match fold_step(s, us[0], cap) {
            Ok(s2) => fold_units(s2, us.skip(1), cap),
            Err(e) => Err(e),
        }
    }
}

/// A fixed-capacity accumulator of `N` payload bytes that folds the parsed
/// views of one chain back into a logical command.
pub struct Reassembler<const N: usize> {
    started: bool,
    complete: bool,
    cla: u8,
    ins: u8,
    p1: u8,
    p2: u8,
    data: Vec<u8>,
    le: u32,
}

impl<const N: usize> View for Reassembler<N> {
    type V = AccState;

    closed spec fn view(&self) -> AccState {
        AccState {
            started: self.started,
            complete: self.complete,
            cla: self.cla,
            ins: self.ins,
            p1: self.p1,
            p2: self.p2,
            data: self.data@,
            le: self.le as int,
        }
    }
}

impl<const N: usize> Reassembler<N> {
    /// The accumulated payload never exceeds the capacity, and nothing is
    /// accumulated before the first unit.
    pub open spec fn wf(self) -> bool {
        &&& self@.data.len() <= N
        &&& (!self@.started ==> self@ == acc_empty())
    }

    /// Creates an empty accumulator.
    pub fn new() -> (r: Reassembler<N>)
        ensures
            r.wf(),
            r@ == acc_empty(),
    {
        let r = Reassembler {
            started: false,
            complete: false,
            cla: 0,
            ins: 0,
            p1: 0,
            p2: 0,
            data: Vec::new(),
            le: 0,
        };
        proof {
            assert(r@ =~= acc_empty());
        }
        r
    }

    /// Folds one parsed view into the accumulator, exactly as `fold_step`
    /// describes; on failure the accumulator is unchanged.
    pub fn extend(&mut self, v: &CommandView<'_>) -> (r: Result<ChainStatus, ReassemblyError>)
        requires
            old(self).wf(),
        ensures
            final(self).wf(),
            match fold_step(old(self)@, v@, N as int) {
                Ok(s2) => {
                    &&& final(self)@ == s2
                    &&& r == Ok::<ChainStatus, ReassemblyError>(
                        if s2.complete {
                            ChainStatus::Complete
                        } else {
                            ChainStatus::Continuing
                        },
                    )
                },
                Err(e) => r == Err::<ChainStatus, ReassemblyError>(e) && final(self)@ == old(
                    self,
                )@,
            },
    {
        if self.complete {
            return Err(ReassemblyError::AlreadyComplete);
        }
        let masked = v.cla & 0xef;
        if self.started && !(masked == self.cla && v.ins == self.ins && v.p1 == self.p1 && v.p2
            == self.p2) {
            return Err(ReassemblyError::HeaderMismatch);
        }
        if v.data.len() > N - self.data.len() {
            return Err(ReassemblyError::CapacityExceeded);
        }
        let ghost pre = self.data@;
        let mut i: usize = 0;
        while i < v.data.len()
            invariant
                i <= v.data@.len(),
                self.data@ == pre + v.data@.take(i as int),
                pre.len() + v.data@.len() <= N,
                self.started == old(self).started,
                self.complete == old(self).complete,
                self.cla == old(self).cla,
                self.ins == old(self).ins,
                self.p1 == old(self).p1,
                self.p2 == old(self).p2,
                self.le == old(self).le,
            decreases v.data@.len() - i,
        {
            self.data.push(v.data[i]);
            proof {
                assert(self.data@ =~= pre + v.data@.take(i + 1));
            }
            i = i + 1;
        }
        proof {
            assert(self.data@ =~= pre + v.data@);
        }
        self.started = true;
        self.cla = masked;
        self.ins = v.ins;
        self.p1 = v.p1;
        self.p2 = v.p2;
        self.le = v.le;
        let chained = v.cla & 0x10 != 0;
        proof {
            assert(v@.chaining() == (v.cla & 0x10 != 0));
        }
        if chained {
            self.complete = false;
            proof {
                assert(self@ =~= fold_step(old(self)@, v@, N as int)->Ok_0);
            }
            Ok(ChainStatus::Continuing)
        } else {
            self.complete = true;
            proof {
                assert(self@ =~= fold_step(old(self)@, v@, N as int)->Ok_0);
            }
            Ok(ChainStatus::Complete)
        }
    }

    /// Whether the final unit has been folded in.
    pub fn is_complete(&self) -> (r: bool)
        ensures
            r == self@.complete,
    {
        self.complete
    }

    /// The payload reassembled so far.
    pub fn data(&self) -> (r: &Vec<u8>)
        ensures
            r@ == self@.data,
    {
        &self.data
    }

    /// The seeded class byte, chaining bit masked off.
    pub fn class_byte(&self) -> (r: u8)
        ensures
            r == self@.cla,
    {
        self.cla
    }

    /// The seeded instruction byte.
    pub fn instruction(&self) -> (r: u8)
        ensures
            r == self@.ins,
    {
        self.ins
    }

    /// The seeded parameter byte 1.
    pub fn p1(&self) -> (r: u8)
        ensures
            r == self@.p1,
    {
        self.p1
    }

    /// The seeded parameter byte 2.
    pub fn p2(&self) -> (r: u8)
        ensures
            r == self@.p2,
    {
        self.p2
    }

    /// The expected response length of the last unit folded in; only the
    /// final unit's value is authoritative.
    pub fn expected_len(&self) -> (r: u32)
        ensures
            r == self@.le,
    {
        self.le
    }
}

} // verus!
