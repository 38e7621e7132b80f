//! Application error variants and their mapping onto RPC status codes.

use vstd::prelude::*;
use vstd::string::StringExecFns;

verus! {

/// Application error variants.
#[derive(Debug)]
pub enum AppError {
    /// The caller is unauthorized to perform the requested action.
    Unauthorized,
    /// The caller's authorization token is unknown.
    UnknownToken,
    /// The caller's authorization username is unknown.
    UnknownUser,
    /// The caller's credentials are malformed or invalid.
    InvalidCredentials(String),
    /// The given input was invalid.
    InvalidInput(String),
    /// The resource specified in the path is not found.
    ResourceNotFound,
    /// The server has hit an internal error, but will remain online.
    Ise(String),
}

/// The RPC status codes which application errors map onto.
#[derive(Clone, Copy, Debug, PartialEq, Eq, Structural)]
pub enum StatusCode {
    Unauthenticated,
    PermissionDenied,
    InvalidArgument,
    NotFound,
    Internal,
    Cancelled,
    FailedPrecondition,
    Unavailable,
}

/// An RPC status: a code along with a human readable message.
#[derive(Debug)]
pub struct RpcStatus {
    pub code: StatusCode,
    pub message: String,
}

/// The error type used to indicate that a system shutdown is required.
#[derive(Debug)]
pub struct ShutdownError {
    pub message: String,
}

impl AppError {
    /// The status code which an error maps onto.
    pub open spec fn spec_code(&self) -> StatusCode {
        match self {
            AppError::Unauthorized => StatusCode::Unauthenticated,
            AppError::UnknownToken | AppError::UnknownUser => StatusCode::PermissionDenied,
            AppError::InvalidCredentials(_) => StatusCode::PermissionDenied,
            AppError::InvalidInput(_) => StatusCode::InvalidArgument,
            AppError::ResourceNotFound => StatusCode::NotFound,
            AppError::Ise(_) => StatusCode::Internal,
        }
    }

    /// The human readable message of an error.
    pub open spec fn spec_message(&self) -> Seq<char> {
        match self {
            AppError::Unauthorized => "unauthorized to perform the requested action"@,
            AppError::UnknownToken => "the given authorization token is unknown"@,
            AppError::UnknownUser => "the given authorization username is unknown"@,
            AppError::InvalidCredentials(s) => "the given authorization credentials are malformed or invalid: "@ + s@,
            AppError::InvalidInput(s) => "validation error: "@ + s@,
            AppError::ResourceNotFound => "the resource specified in the path is not found"@,
            AppError::Ise(_) => "internal server error"@,
        }
    }

    /// Render the human readable message of this error.
    pub fn message(&self) -> (msg: String)
        ensures
            msg@ == self.spec_message(),
    {
        match self {
            AppError::Unauthorized => String::from_str("unauthorized to perform the requested action"),
            AppError::UnknownToken => String::from_str("the given authorization token is unknown"),
            AppError::UnknownUser => String::from_str("the given authorization username is unknown"),
            AppError::InvalidCredentials(s) => {
                let prefix = String::from_str("the given authorization credentials are malformed or invalid: ");
                prefix.concat(s.as_str())
            },
            AppError::InvalidInput(s) => {
                let prefix = String::from_str("validation error: ");
                prefix.concat(s.as_str())
            },
            AppError::ResourceNotFound => String::from_str("the resource specified in the path is not found"),
            AppError::Ise(_) => String::from_str("internal server error"),
        }
    }

    /// Get the RPC status code and message for this error.
    pub fn into_status(&self) -> (status: RpcStatus)
        ensures
            status.code == self.spec_code(),
            status.message@ == self.spec_message(),
    {
        let code = match self {
            AppError::Unauthorized => StatusCode::Unauthenticated,
            AppError::UnknownToken | AppError::UnknownUser => StatusCode::PermissionDenied,
            AppError::InvalidCredentials(_) => StatusCode::PermissionDenied,
            AppError::InvalidInput(_) => StatusCode::InvalidArgument,
            AppError::ResourceNotFound => StatusCode::NotFound,
            AppError::Ise(_) => StatusCode::Internal,
        };
        RpcStatus { code, message: self.message() }
    }
}

} // verus!
