use libczi::{CziError, LibCZIApiError};

#[test]
fn known_codes_name_their_kind() {
    assert_eq!(LibCZIApiError::try_from(0), Ok(LibCZIApiError::OK));
    assert_eq!(
        LibCZIApiError::try_from(1),
        Err(CziError::Api(LibCZIApiError::InvalidArgument))
    );
    assert_eq!(
        LibCZIApiError::try_from(2),
        Err(CziError::Api(LibCZIApiError::InvalidHandle))
    );
    assert_eq!(
        LibCZIApiError::try_from(3),
        Err(CziError::Api(LibCZIApiError::OutOfMemory))
    );
    assert_eq!(
        LibCZIApiError::try_from(4),
        Err(CziError::Api(LibCZIApiError::IndexOutOfRange))
    );
    assert_eq!(
        LibCZIApiError::try_from(20),
        Err(CziError::Api(LibCZIApiError::LockUnlockSemanticViolated))
    );
    assert_eq!(
        LibCZIApiError::try_from(50),
        Err(CziError::Api(LibCZIApiError::UnspecifiedError))
    );
    assert_eq!(
        LibCZIApiError::try_from(60),
        Err(CziError::Api(LibCZIApiError::CorruptData))
    );
    assert_eq!(
        LibCZIApiError::try_from(61),
        Err(CziError::Api(LibCZIApiError::Truncated))
    );
}

#[test]
fn unknown_codes_are_reported_with_their_number() {
    assert_eq!(LibCZIApiError::try_from(7), Err(CziError::UnknownErrorCode(7)));
    assert_eq!(LibCZIApiError::try_from(-1), Err(CziError::UnknownErrorCode(-1)));
    assert_eq!(
        LibCZIApiError::try_from(i32::MAX),
        Err(CziError::UnknownErrorCode(i32::MAX))
    );
}

#[test]
fn every_kind_has_its_code_and_comes_back_from_it() {
    let kinds = [
        (LibCZIApiError::InvalidArgument, 1),
        (LibCZIApiError::InvalidHandle, 2),
        (LibCZIApiError::OutOfMemory, 3),
        (LibCZIApiError::IndexOutOfRange, 4),
        (LibCZIApiError::LockUnlockSemanticViolated, 20),
        (LibCZIApiError::UnspecifiedError, 50),
        (LibCZIApiError::CorruptData, 60),
        (LibCZIApiError::Truncated, 61),
    ];
    for (kind, code) in kinds {
        assert_eq!(kind.code(), code);
        assert_eq!(LibCZIApiError::try_from(code), Err(CziError::Api(kind)));
    }
    assert_eq!(LibCZIApiError::OK.code(), 0);
}

#[test]
fn a_kind_is_shown_with_the_name_of_the_library_before_it() {
    assert_eq!(LibCZIApiError::OK.to_string(), "LibCZIApi OK");
    assert_eq!(
        LibCZIApiError::InvalidArgument.to_string(),
        "LibCZIApi InvalidArgument"
    );
    assert_eq!(
        LibCZIApiError::LockUnlockSemanticViolated.to_string(),
        "LibCZIApi LockUnlockSemanticViolated"
    );
    assert_eq!(LibCZIApiError::Truncated.to_string(), "LibCZIApi Truncated");
}
