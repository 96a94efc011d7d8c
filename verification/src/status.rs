//! Errors as an RPC framework's status codes carry them.

use vstd::prelude::*;
use crate::errors::{CuteError, CuteErrorCode};

verus! {

/// The status codes of the RPC framework. `Okay` is the code of success.
#[derive(Clone, Copy, Debug, PartialEq, Eq, Hash, Structural)]
pub enum StatusCode {
    Okay,
    Cancelled,
    Unknown,
    InvalidArgument,
    DeadlineExceeded,
    NotFound,
    AlreadyExists,
    PermissionDenied,
    ResourceExhausted,
    FailedPrecondition,
    Aborted,
    OutOfRange,
    Unimplemented,
    Internal,
    Unavailable,
    DataLoss,
    Unauthenticated,
}

/// The status code that carries an error of kind `code`.
pub open spec fn status_of_code(code: CuteErrorCode) -> StatusCode {
    match code {
        CuteErrorCode::SerializeInvalid => StatusCode::InvalidArgument,
        CuteErrorCode::DeSerializeInvalid => StatusCode::Unimplemented,
        CuteErrorCode::DeadlineExceeded => StatusCode::DeadlineExceeded,
        CuteErrorCode::PermissionDenied => StatusCode::PermissionDenied,
        CuteErrorCode::NotFound => StatusCode::NotFound,
        CuteErrorCode::Internal => StatusCode::Internal,
        CuteErrorCode::Cancelled => StatusCode::Cancelled,
        CuteErrorCode::Unauthenticated => StatusCode::Unauthenticated,
        CuteErrorCode::Okay => StatusCode::Okay,
    }
}

/// The error kind that a status code stands for; a code that carries none
/// of the error kinds stands for `Internal`.
pub open spec fn code_of_status(status: StatusCode) -> CuteErrorCode {
    match status {
        StatusCode::Okay => CuteErrorCode::Okay,
        StatusCode::Cancelled => CuteErrorCode::Cancelled,
        StatusCode::InvalidArgument => CuteErrorCode::SerializeInvalid,
        StatusCode::DeadlineExceeded => CuteErrorCode::DeadlineExceeded,
        StatusCode::NotFound => CuteErrorCode::NotFound,
        StatusCode::PermissionDenied => CuteErrorCode::PermissionDenied,
        StatusCode::Unimplemented => CuteErrorCode::DeSerializeInvalid,
        StatusCode::Unauthenticated => CuteErrorCode::Unauthenticated,
        _ => CuteErrorCode::Internal,
    }
}

/// The status code and the message under which `e` travels.
pub fn convert_cute_error_to_status(e: CuteError) -> (status: (StatusCode, String))
    ensures
        status.0 == status_of_code(e.code),
        status.1@ == e.message@,
{
    let code = match e.code {
        CuteErrorCode::SerializeInvalid => StatusCode::InvalidArgument,
        CuteErrorCode::DeSerializeInvalid => StatusCode::Unimplemented,
        CuteErrorCode::DeadlineExceeded => StatusCode::DeadlineExceeded,
        CuteErrorCode::PermissionDenied => StatusCode::PermissionDenied,
        CuteErrorCode::NotFound => StatusCode::NotFound,
        CuteErrorCode::Internal => StatusCode::Internal,
        CuteErrorCode::Cancelled => StatusCode::Cancelled,
        CuteErrorCode::Unauthenticated => StatusCode::Unauthenticated,
        CuteErrorCode::Okay => StatusCode::Okay,
    };
    (code, e.message)
}

/// The error that a status of code `status` with `message` stands for.
pub fn convert_status_to_cute_error(status: StatusCode, message: &str) -> (e: CuteError)
    ensures
        e.code == code_of_status(status),
        e.message@ == message@,
{
    match status {
        StatusCode::Okay => CuteError::ok(message),
        StatusCode::Cancelled => CuteError::cancelled(message),
        StatusCode::InvalidArgument => CuteError::serialize_invalid(message),
        StatusCode::DeadlineExceeded => CuteError::deadline_exceeded(message),
        StatusCode::NotFound => CuteError::not_found(message),
        StatusCode::PermissionDenied => CuteError::permission_denied(message),
        StatusCode::Unimplemented => CuteError::deserialize_invalid(message),
        StatusCode::Unauthenticated => CuteError::unauthenticated(message),
        _ => CuteError::internal(message),
    }
}

/// An error kind that has travelled as a status code comes back as itself.
pub proof fn lemma_status_keeps_the_error_kind(code: CuteErrorCode)
    ensures
        code_of_status(status_of_code(code)) == code,
{
}

} // verus!
