//! Status words (SW1 SW2) returned after a command APDU, and their
//! bidirectional mapping to the two-byte big-endian status code.
//!
//! The core engine does not interpret status words; this module sits at its
//! boundary and maps the 16-bit value to a closed enumeration and back.
//! Unmapped values round-trip as an opaque numeric error.

use vstd::prelude::*;

verus! {

/// The closed enumeration of interindustry status words.
#[derive(Copy, Clone, Debug, Eq, PartialEq)]
#[non_exhaustive]
pub enum Status {
    /// 0x9000: normal processing, no further qualification.
    Success,
    /// 0x61XX: normal processing, SW2 bytes of response data still available.
    MoreAvailable(u8),
    /// 0x6300: warning, verification failed.
    VerificationFailed,
    /// 0x63C0..=0x63CF: warning, the low nibble counts the remaining retries.
    RemainingRetries(u8),
    /// 0x6400: execution error, non-volatile memory unchanged.
    UnspecifiedNonpersistentExecutionError,
    /// 0x6500: execution error, non-volatile memory changed.
    UnspecifiedPersistentExecutionError,
    /// 0x6700: wrong length, no further indication.
    WrongLength,
    /// 0x6881: logical channel not supported.
    LogicalChannelNotSupported,
    /// 0x6882: secure messaging not supported.
    SecureMessagingNotSupported,
    /// 0x6884: command chaining not supported.
    CommandChainingNotSupported,
    /// 0x6982: security status not satisfied.
    SecurityStatusNotSatisfied,
    /// 0x6985: conditions of use not satisfied.
    ConditionsOfUseNotSatisfied,
    /// 0x6983: authentication method blocked.
    OperationBlocked,
    /// 0x6A80: incorrect parameters in the command data field.
    IncorrectDataParameter,
    /// 0x6A81: function not supported.
    FunctionNotSupported,
    /// 0x6A82: file or application not found.
    NotFound,
    /// 0x6A84: not enough memory space in the file.
    NotEnoughMemory,
    /// 0x6A86: incorrect parameters P1-P2.
    IncorrectP1OrP2Parameter,
    /// 0x6A88: referenced data not found.
    KeyReferenceNotFound,
    /// 0x6D00: instruction code not supported or invalid.
    InstructionNotSupportedOrInvalid,
    /// 0x6E00: class not supported.
    ClassNotSupported,
    /// 0x6F00: no precise diagnosis.
    UnspecifiedCheckingError,
}

impl Status {
    /// A status value is well formed when a retry counter fits its nibble.
    pub open spec fn wf(self) -> bool {
        match self {
            Status::RemainingRetries(x) => x < 16,
            _ => true,
        }
    }

    /// The 16-bit status code that encodes this status word.
    pub open spec fn spec_code(self) -> u16 {
        match self {
            Status::Success => 0x9000,
            Status::MoreAvailable(x) => (0x6100 + x) as u16,
            Status::VerificationFailed => 0x6300,
            Status::RemainingRetries(x) => (0x63c0 + (x & 0xf)) as u16,
            Status::UnspecifiedNonpersistentExecutionError => 0x6400,
            Status::UnspecifiedPersistentExecutionError => 0x6500,
            Status::WrongLength => 0x6700,
            Status::LogicalChannelNotSupported => 0x6881,
            Status::SecureMessagingNotSupported => 0x6882,
            Status::CommandChainingNotSupported => 0x6884,
            Status::SecurityStatusNotSatisfied => 0x6982,
            Status::ConditionsOfUseNotSatisfied => 0x6985,
            Status::OperationBlocked => 0x6983,
            Status::IncorrectDataParameter => 0x6a80,
            Status::FunctionNotSupported => 0x6a81,
            Status::NotFound => 0x6a82,
            Status::NotEnoughMemory => 0x6a84,
            Status::IncorrectP1OrP2Parameter => 0x6a86,
            Status::KeyReferenceNotFound => 0x6a88,
            Status::InstructionNotSupportedOrInvalid => 0x6d00,
            Status::ClassNotSupported => 0x6e00,
            Status::UnspecifiedCheckingError => 0x6f00,
        }
    }

    /// The status word a 16-bit code decodes to, or `None` for an unmapped code.
    pub open spec fn spec_decode(code: u16) -> Option<Status> {
        if code == 0x9000 {
            Some(Status::Success)
        } else if 0x6100 <= code && code <= 0x61ff {
            Some(Status::MoreAvailable((code - 0x6100) as u8))
        } else if code == 0x6300 {
            Some(Status::VerificationFailed)
        } else if 0x63c0 <= code && code <= 0x63cf {
            Some(Status::RemainingRetries((code - 0x63c0) as u8))
        } else if code == 0x6400 {
            Some(Status::UnspecifiedNonpersistentExecutionError)
        } else if code == 0x6500 {
            Some(Status::UnspecifiedPersistentExecutionError)
        } else if code == 0x6700 {
            Some(Status::WrongLength)
        } else if code == 0x6881 {
            Some(Status::LogicalChannelNotSupported)
        } else if code == 0x6882 {
            Some(Status::SecureMessagingNotSupported)
        } else if code == 0x6884 {
            Some(Status::CommandChainingNotSupported)
        } else if code == 0x6982 {
            Some(Status::SecurityStatusNotSatisfied)
        } else if code == 0x6985 {
            Some(Status::ConditionsOfUseNotSatisfied)
        } else if code == 0x6983 {
            Some(Status::OperationBlocked)
        } else if code == 0x6a80 {
            Some(Status::IncorrectDataParameter)
        } else if code == 0x6a81 {
            Some(Status::FunctionNotSupported)
        } else if code == 0x6a82 {
            Some(Status::NotFound)
        } else if code == 0x6a84 {
            Some(Status::NotEnoughMemory)
        } else if code == 0x6a86 {
            Some(Status::IncorrectP1OrP2Parameter)
        } else if code == 0x6a88 {
            Some(Status::KeyReferenceNotFound)
        } else if code == 0x6d00 {
            Some(Status::InstructionNotSupportedOrInvalid)
        } else if code == 0x6e00 {
            Some(Status::ClassNotSupported)
        } else if code == 0x6f00 {
            Some(Status::UnspecifiedCheckingError)
        } else {
            None
        }
    }

    /// Decodes the two status bytes (SW1, SW2); an unmapped code is returned
    /// verbatim as the error.
    pub fn try_from(sw: (u8, u8)) -> (r: Result<Status, u16>)
        ensures
            ({
                let code = (sw.0 as u16 * 256 + sw.1 as u16) as u16;
                match Status::spec_decode(code) {
                    Some(s) => r == Ok::<Status, u16>(s) && s.wf(),
                    None => r == Err::<Status, u16>(code),
                }
            }),
    {
        let (sw1, sw2) = sw;
        let code: u16 = sw1 as u16 * 256 + sw2 as u16;
        if code == 0x9000 {
            Ok(Status::Success)
        } else if 0x6100 <= code && code <= 0x61ff {
            Ok(Status::MoreAvailable((code - 0x6100) as u8))
        } else if code == 0x6300 {
            Ok(Status::VerificationFailed)
        } else if 0x63c0 <= code && code <= 0x63cf {
            Ok(Status::RemainingRetries((code - 0x63c0) as u8))
        } else if code == 0x6400 {
            Ok(Status::UnspecifiedNonpersistentExecutionError)
        } else if code == 0x6500 {
            Ok(Status::UnspecifiedPersistentExecutionError)
        } else if code == 0x6700 {
            Ok(Status::WrongLength)
        } else if code == 0x6881 {
            Ok(Status::LogicalChannelNotSupported)
        } else if code == 0x6882 {
            Ok(Status::SecureMessagingNotSupported)
        } else if code == 0x6884 {
            Ok(Status::CommandChainingNotSupported)
        } else if code == 0x6982 {
            Ok(Status::SecurityStatusNotSatisfied)
        } else if code == 0x6985 {
            Ok(Status::ConditionsOfUseNotSatisfied)
        } else if code == 0x6983 {
            Ok(Status::OperationBlocked)
        } else if code == 0x6a80 {
            Ok(Status::IncorrectDataParameter)
        } else if code == 0x6a81 {
            Ok(Status::FunctionNotSupported)
        } else if code == 0x6a82 {
            Ok(Status::NotFound)
        } else if code == 0x6a84 {
            Ok(Status::NotEnoughMemory)
        } else if code == 0x6a86 {
            Ok(Status::IncorrectP1OrP2Parameter)
        } else if code == 0x6a88 {
            Ok(Status::KeyReferenceNotFound)
        } else if code == 0x6d00 {
            Ok(Status::InstructionNotSupportedOrInvalid)
        } else if code == 0x6e00 {
            Ok(Status::ClassNotSupported)
        } else if code == 0x6f00 {
            Ok(Status::UnspecifiedCheckingError)
        } else {
            Err(code)
        }
    }

    /// The 16-bit status code of this status word.
    pub fn code(self) -> (r: u16)
        requires
            self.wf(),
        ensures
            r == self.spec_code(),
    {
        match self {
            Status::Success => 0x9000,
            Status::MoreAvailable(x) => 0x6100 + x as u16,
            Status::VerificationFailed => 0x6300,
            Status::RemainingRetries(x) => 0x63c0 + (x & 0xf) as u16,
            Status::UnspecifiedNonpersistentExecutionError => 0x6400,
            Status::UnspecifiedPersistentExecutionError => 0x6500,
            Status::WrongLength => 0x6700,
            Status::LogicalChannelNotSupported => 0x6881,
            Status::SecureMessagingNotSupported => 0x6882,
            Status::CommandChainingNotSupported => 0x6884,
            Status::SecurityStatusNotSatisfied => 0x6982,
            Status::ConditionsOfUseNotSatisfied => 0x6985,
            Status::OperationBlocked => 0x6983,
            Status::IncorrectDataParameter => 0x6a80,
            Status::FunctionNotSupported => 0x6a81,
            Status::NotFound => 0x6a82,
            Status::NotEnoughMemory => 0x6a84,
            Status::IncorrectP1OrP2Parameter => 0x6a86,
            Status::KeyReferenceNotFound => 0x6a88,
            Status::InstructionNotSupportedOrInvalid => 0x6d00,
            Status::ClassNotSupported => 0x6e00,
            Status::UnspecifiedCheckingError => 0x6f00,
        }
    }

    /// The status word as its two wire bytes (SW1, SW2), big endian.
    pub fn to_bytes(self) -> (r: [u8; 2])
        requires
            self.wf(),
        ensures
            r[0] == self.spec_code() / 256,
            r[1] == self.spec_code() % 256,
    {
        let code = self.code();
        [(code / 256) as u8, (code % 256) as u8]
    }
}

impl Default for Status {
    /// The default status word reports success.
    fn default() -> (r: Self)
        ensures
            r == Status::Success,
    {
        Status::Success
    }
}

} // verus!
