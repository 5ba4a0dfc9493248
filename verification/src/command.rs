//! The logical command: class, instruction, parameters, payload and
//! expected-response length, before any wire encoding is chosen.

use vstd::prelude::*;

use crate::class::Class;

verus! {

/// The mathematical view of a logical command.
pub struct CommandModel {
    /// The class byte.
    pub cla: u8,
    /// The instruction byte.
    pub ins: u8,
    /// Parameter byte 1.
    pub p1: u8,
    /// Parameter byte 2.
    pub p2: u8,
    /// The command payload.
    pub data: Seq<u8>,
    /// The expected response length, `0..=65536`.
    pub le: int,
}

impl CommandModel {
    /// Bounds of the logical data model: the payload fits the extended
    /// length field and the expected length fits its extended encoding.
    pub open spec fn wf(self) -> bool {
        &&& Class::valid_byte(self.cla)
        &&& self.data.len() <= 65535
        &&& 0 <= self.le <= 65536
    }
}

/// A logical command, immutable once constructed.
pub struct Command {
    /// The validated class.
    pub class: Class,
    /// The instruction byte.
    pub instruction: u8,
    /// Parameter byte 1.
    pub p1: u8,
    /// Parameter byte 2.
    pub p2: u8,
    /// The payload, at most 65535 bytes.
    pub data: Vec<u8>,
    /// The expected response length, at most 65536.
    pub le: u32,
}

impl View for Command {
    type V = CommandModel;

    open spec fn view(&self) -> CommandModel {
        CommandModel {
            cla: self.class.spec_byte(),
            ins: self.instruction,
            p1: self.p1,
            p2: self.p2,
            data: self.data@,
            le: self.le as int,
        }
    }
}

impl Command {
    /// A command is well formed when its class byte is valid and its payload
    /// and expected length lie within the extended wire format's bounds.
    pub open spec fn wf(self) -> bool {
        self.class.wf() && self@.wf()
    }

    /// Builds a logical command from its fields.
    pub fn new(class: Class, instruction: u8, p1: u8, p2: u8, data: Vec<u8>, le: u32) -> (r:
        Command)
        requires
            class.wf(),
            data@.len() <= 65535,
            le <= 65536,
        ensures
            r.wf(),
            r@ == (CommandModel {
                cla: class.spec_byte(),
                ins: instruction,
                p1,
                p2,
                data: data@,
                le: le as int,
            }),
    {
        Command { class, instruction, p1, p2, data, le }
    }
}

} // verus!
