use iso7816::Status;

#[test]
fn status_decodes_fixed_codes() {
    let table: &[(u16, Status)] = &[
        (0x9000, Status::Success),
        (0x6300, Status::VerificationFailed),
        (0x6400, Status::UnspecifiedNonpersistentExecutionError),
        (0x6500, Status::UnspecifiedPersistentExecutionError),
        (0x6700, Status::WrongLength),
        (0x6881, Status::LogicalChannelNotSupported),
        (0x6882, Status::SecureMessagingNotSupported),
        (0x6884, Status::CommandChainingNotSupported),
        (0x6982, Status::SecurityStatusNotSatisfied),
        (0x6985, Status::ConditionsOfUseNotSatisfied),
        (0x6983, Status::OperationBlocked),
        (0x6a80, Status::IncorrectDataParameter),
        (0x6a81, Status::FunctionNotSupported),
        (0x6a82, Status::NotFound),
        (0x6a84, Status::NotEnoughMemory),
        (0x6a86, Status::IncorrectP1OrP2Parameter),
        (0x6a88, Status::KeyReferenceNotFound),
        (0x6d00, Status::InstructionNotSupportedOrInvalid),
        (0x6e00, Status::ClassNotSupported),
        (0x6f00, Status::UnspecifiedCheckingError),
    ];
    for &(code, status) in table {
        let sw1 = (code >> 8) as u8;
        let sw2 = (code & 0xff) as u8;
        assert_eq!(Status::try_from((sw1, sw2)), Ok(status));
        assert_eq!(status.code(), code);
        assert_eq!(status.to_bytes(), [sw1, sw2]);
    }
}

#[test]
fn status_more_available_carries_sw2() {
    assert_eq!(Status::try_from((0x61, 0x00)), Ok(Status::MoreAvailable(0)));
    assert_eq!(Status::try_from((0x61, 0xab)), Ok(Status::MoreAvailable(0xab)));
    assert_eq!(Status::MoreAvailable(0xab).code(), 0x61ab);
}

#[test]
fn status_remaining_retries_carries_count() {
    assert_eq!(Status::try_from((0x63, 0xc0)), Ok(Status::RemainingRetries(0)));
    assert_eq!(Status::try_from((0x63, 0xc7)), Ok(Status::RemainingRetries(7)));
    assert_eq!(Status::try_from((0x63, 0xcf)), Ok(Status::RemainingRetries(15)));
    assert_eq!(Status::RemainingRetries(7).code(), 0x63c7);
}

#[test]
fn status_unmapped_codes_round_trip_as_errors() {
    assert_eq!(Status::try_from((0x12, 0x34)), Err(0x1234));
    assert_eq!(Status::try_from((0x63, 0x01)), Err(0x6301));
    assert_eq!(Status::try_from((0x6a, 0x83)), Err(0x6a83));
    assert_eq!(Status::try_from((0x90, 0x01)), Err(0x9001));
}

#[test]
fn status_default_is_success() {
    assert_eq!(Status::default(), Status::Success);
}
