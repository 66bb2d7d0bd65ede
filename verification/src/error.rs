//! The error kinds that every fallible operation of the engine reports.

use vstd::prelude::*;
use vstd::std_specs::convert::TryFromSpecImpl;

verus! {

/// The result kinds of the engine's operations. `OK` is the kind of a call
/// that succeeded; every other kind is a failure.
#[derive(Clone, Copy, Debug, PartialEq, Eq, Structural)]
pub enum LibCZIApiError {
    /// The operation succeeded.
    OK,
    /// An argument was malformed, such as a bad dimension index or an empty region.
    InvalidArgument,
    /// A handle was used that is unknown or was released before.
    InvalidHandle,
    /// Memory could not be had.
    OutOfMemory,
    /// A valid object was asked for an index outside its range.
    IndexOutOfRange,
    /// The lock and unlock calls on a bitmap did not balance.
    LockUnlockSemanticViolated,
    /// A failure of no other kind.
    UnspecifiedError,
    /// The container holds a segment that is not what was expected there.
    CorruptData,
    /// The container ends before a declared length is reached.
    Truncated,
}

/// Why a conversion or an operation failed: either with one of the engine's
/// error kinds, or because a number or a text could not be read at all.
#[derive(Clone, Copy, Debug, PartialEq, Eq, Structural)]
pub enum CziError {
    /// The engine reported this kind, which is never `OK`.
    Api(LibCZIApiError),
    /// A result code that names no kind.
    UnknownErrorCode(i32),
    /// A number that names no dimension.
    UnknownDimension(i32),
    /// A number that names no raw data type.
    UnknownRawDataType(i32),
    /// A number that names no pixel type.
    UnknownPixelType(i32),
    /// Bytes that are no UTF-8 text.
    InvalidUtf8,
    /// A fixed-size text field without a terminating zero byte.
    MissingTerminator,
    /// A text with a zero byte inside, which cannot be handed on as a C string.
    InteriorNul,
}

impl LibCZIApiError {
    /// The result code that stands for this kind.
    pub open spec fn code_spec(self) -> int {
        match self {
            LibCZIApiError::OK => 0,
            LibCZIApiError::InvalidArgument => 1,
            LibCZIApiError::InvalidHandle => 2,
            LibCZIApiError::OutOfMemory => 3,
            LibCZIApiError::IndexOutOfRange => 4,
            LibCZIApiError::LockUnlockSemanticViolated => 20,
            LibCZIApiError::UnspecifiedError => 50,
            LibCZIApiError::CorruptData => 60,
            LibCZIApiError::Truncated => 61,
        }
    }

    /// What a result code means: `Ok(OK)` for 0, the failure that the code
    /// names for every other known code, and `UnknownErrorCode` otherwise.
    pub open spec fn from_code(code: i32) -> Result<LibCZIApiError, CziError> {
        if code == 0 {
            Ok(LibCZIApiError::OK)
        } else if code == 1 {
            Err(CziError::Api(LibCZIApiError::InvalidArgument))
        } else if code == 2 {
            Err(CziError::Api(LibCZIApiError::InvalidHandle))
        } else if code == 3 {
            Err(CziError::Api(LibCZIApiError::OutOfMemory))
        } else if code == 4 {
            Err(CziError::Api(LibCZIApiError::IndexOutOfRange))
        } else if code == 20 {
            Err(CziError::Api(LibCZIApiError::LockUnlockSemanticViolated))
        } else if code == 50 {
            Err(CziError::Api(LibCZIApiError::UnspecifiedError))
        } else if code == 60 {
            Err(CziError::Api(LibCZIApiError::CorruptData))
        } else if code == 61 {
            Err(CziError::Api(LibCZIApiError::Truncated))
        } else {
            Err(CziError::UnknownErrorCode(code))
        }
    }

    /// The result code of this kind.
    pub fn code(&self) -> (code: i32)
        ensures
            code == self.code_spec(),
    {
        match self {
            LibCZIApiError::OK => 0,
            LibCZIApiError::InvalidArgument => 1,
            LibCZIApiError::InvalidHandle => 2,
            LibCZIApiError::OutOfMemory => 3,
            LibCZIApiError::IndexOutOfRange => 4,
            LibCZIApiError::LockUnlockSemanticViolated => 20,
            LibCZIApiError::UnspecifiedError => 50,
            LibCZIApiError::CorruptData => 60,
            LibCZIApiError::Truncated => 61,
        }
    }

    /// The text shown for this kind: the word `LibCZIApi`, a space, and the
    /// kind's name.
    pub open spec fn message_spec(self) -> Seq<char> {
        match self {
            LibCZIApiError::OK => "LibCZIApi OK"@,
            LibCZIApiError::InvalidArgument => "LibCZIApi InvalidArgument"@,
            LibCZIApiError::InvalidHandle => "LibCZIApi InvalidHandle"@,
            LibCZIApiError::OutOfMemory => "LibCZIApi OutOfMemory"@,
            LibCZIApiError::IndexOutOfRange => "LibCZIApi IndexOutOfRange"@,
            LibCZIApiError::LockUnlockSemanticViolated => "LibCZIApi LockUnlockSemanticViolated"@,
            LibCZIApiError::UnspecifiedError => "LibCZIApi UnspecifiedError"@,
            LibCZIApiError::CorruptData => "LibCZIApi CorruptData"@,
            LibCZIApiError::Truncated => "LibCZIApi Truncated"@,
        }
    }

    /// The text shown for this kind.
    pub fn to_string(&self) -> (text: String)
        ensures
            text@ == self.message_spec(),
    {
        match self {
            LibCZIApiError::OK => "LibCZIApi OK".to_owned(),
            LibCZIApiError::InvalidArgument => "LibCZIApi InvalidArgument".to_owned(),
            LibCZIApiError::InvalidHandle => "LibCZIApi InvalidHandle".to_owned(),
            LibCZIApiError::OutOfMemory => "LibCZIApi OutOfMemory".to_owned(),
            LibCZIApiError::IndexOutOfRange => "LibCZIApi IndexOutOfRange".to_owned(),
            LibCZIApiError::LockUnlockSemanticViolated => {
                "LibCZIApi LockUnlockSemanticViolated".to_owned()
            },
            LibCZIApiError::UnspecifiedError => "LibCZIApi UnspecifiedError".to_owned(),
            LibCZIApiError::CorruptData => "LibCZIApi CorruptData".to_owned(),
            LibCZIApiError::Truncated => "LibCZIApi Truncated".to_owned(),
        }
    }
}

impl TryFrom<i32> for LibCZIApiError {
    type Error = CziError;

    fn try_from(code: i32) -> (res: Result<Self, CziError>) {
        if code == 0 {
            Ok(LibCZIApiError::OK)
        } else if code == 1 {
            Err(CziError::Api(LibCZIApiError::InvalidArgument))
        } else if code == 2 {
            Err(CziError::Api(LibCZIApiError::InvalidHandle))
        } else if code == 3 {
            Err(CziError::Api(LibCZIApiError::OutOfMemory))
        } else if code == 4 {
            Err(CziError::Api(LibCZIApiError::IndexOutOfRange))
        } else if code == 20 {
            Err(CziError::Api(LibCZIApiError::LockUnlockSemanticViolated))
        } else if code == 50 {
            Err(CziError::Api(LibCZIApiError::UnspecifiedError))
        } else if code == 60 {
            Err(CziError::Api(LibCZIApiError::CorruptData))
        } else if code == 61 {
            Err(CziError::Api(LibCZIApiError::Truncated))
        } else {
            Err(CziError::UnknownErrorCode(code))
        }
    }
}

impl TryFromSpecImpl<i32> for LibCZIApiError {
    open spec fn obeys_try_from_spec() -> bool {
        true
    }

    open spec fn try_from_spec(code: i32) -> Result<Self, CziError> {
        LibCZIApiError::from_code(code)
    }
}

/// A code and the kind it names belong together: the code of a failure kind
/// converts back to that failure, and the code of `OK` to `OK`.
pub proof fn lemma_code_round_trip(kind: LibCZIApiError)
    ensures
        i32::MIN <= kind.code_spec() <= i32::MAX,
        kind == LibCZIApiError::OK ==> LibCZIApiError::from_code(kind.code_spec() as i32) == Ok::<
            LibCZIApiError,
            CziError,
        >(kind),
        kind != LibCZIApiError::OK ==> LibCZIApiError::from_code(kind.code_spec() as i32) == Err::<
            LibCZIApiError,
            CziError,
        >(CziError::Api(kind)),
{
}

} // verus!
