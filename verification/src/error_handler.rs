//! Application-level error taxonomy and its user-facing presentation.

use vstd::prelude::*;

use crate::storage::StorageError;

verus! {

/// A user-friendly error response structure.
pub struct ErrorResponse {
    pub error: String,
    pub message: String,
    pub error_type: String,
    pub details: Option<String>,
}

/// Error types surfaced to the application's collaborators.
#[derive(Debug)]
pub enum AppError {
    /// Storage-related errors.
    Storage(String),
    /// Authentication-related errors.
    Auth(String),
    /// Validation errors.
    Validation(String),
    /// Not found errors.
    NotFound(String),
    /// Internal server errors.
    Internal(String),
}

impl AppError {
    /// The message carried by the error, whatever its variant.
    pub open spec fn message_view(&self) -> Seq<char> {
        match self {
            AppError::Storage(m) => m.deep_view(),
            AppError::Auth(m) => m.deep_view(),
            AppError::Validation(m) => m.deep_view(),
            AppError::NotFound(m) => m.deep_view(),
            AppError::Internal(m) => m.deep_view(),
        }
    }

    /// Builds the user-friendly response for this error.
    ///
    /// Internal failures are reported with a fixed message so that no
    /// internal detail reaches a caller.
    pub fn to_error_response(&self) -> (r: ErrorResponse)
        ensures
            self is Storage ==> r.error.deep_view() == "Storage Error"@
                && r.message.deep_view() == self.message_view()
                && r.error_type.deep_view() == "STORAGE_ERROR"@,
            self is Auth ==> r.error.deep_view() == "Authentication Error"@
                && r.message.deep_view() == self.message_view()
                && r.error_type.deep_view() == "AUTH_ERROR"@,
            self is Validation ==> r.error.deep_view() == "Validation Error"@
                && r.message.deep_view() == self.message_view()
                && r.error_type.deep_view() == "VALIDATION_ERROR"@,
            self is NotFound ==> r.error.deep_view() == "Not Found"@
                && r.message.deep_view() == self.message_view()
                && r.error_type.deep_view() == "NOT_FOUND"@,
            self is Internal ==> r.error.deep_view() == "Internal Server Error"@
                && r.message.deep_view()
                    == "An unexpected error occurred. Please try again later."@
                && r.error_type.deep_view() == "INTERNAL_ERROR"@,
            r.details is None,
    {
        match self {
            AppError::Storage(msg) => ErrorResponse {
                error: String::from_str("Storage Error"),
                message: msg.clone(),
                error_type: String::from_str("STORAGE_ERROR"),
                details: None,
            },
            AppError::Auth(msg) => ErrorResponse {
                error: String::from_str("Authentication Error"),
                message: msg.clone(),
                error_type: String::from_str("AUTH_ERROR"),
                details: None,
            },
            AppError::Validation(msg) => ErrorResponse {
                error: String::from_str("Validation Error"),
                message: msg.clone(),
                error_type: String::from_str("VALIDATION_ERROR"),
                details: None,
            },
            AppError::NotFound(msg) => ErrorResponse {
                error: String::from_str("Not Found"),
                message: msg.clone(),
                error_type: String::from_str("NOT_FOUND"),
                details: None,
            },
            AppError::Internal(_) => ErrorResponse {
                error: String::from_str("Internal Server Error"),
                message: String::from_str(
                    "An unexpected error occurred. Please try again later.",
                ),
                error_type: String::from_str("INTERNAL_ERROR"),
                details: None,
            },
        }
    }

    /// The HTTP status code this error maps to at the service boundary.
    pub fn http_status(&self) -> (r: u16)
        ensures
            r == match self {
                AppError::Storage(_) => 500u16,
                AppError::Auth(_) => 401u16,
                AppError::Validation(_) => 400u16,
                AppError::NotFound(_) => 404u16,
                AppError::Internal(_) => 500u16,
            },
    {
        match self {
            AppError::Storage(_) => 500,
            AppError::Auth(_) => 401,
            AppError::Validation(_) => 400,
            AppError::NotFound(_) => 404,
            AppError::Internal(_) => 500,
        }
    }
}

/// Extension methods for converting store results into `AppError` results.
pub trait ResultExt<T>: Sized {
    /// The success value, where there is one.
    spec fn ok_view(&self) -> Option<T>;

    /// The failure description, where the result failed.
    spec fn err_message(&self) -> Seq<char>;

    fn map_storage_err(self) -> (r: Result<T, AppError>)
        ensures
            self.ok_view() is Some ==> r is Ok && r->Ok_0 == self.ok_view()->0,
            self.ok_view() is None ==> r is Err && r->Err_0 is Storage
                && r->Err_0.message_view() == self.err_message(),
    ;

    fn map_auth_err(self) -> (r: Result<T, AppError>)
        ensures
            self.ok_view() is Some ==> r is Ok && r->Ok_0 == self.ok_view()->0,
            self.ok_view() is None ==> r is Err && r->Err_0 is Auth
                && r->Err_0.message_view() == self.err_message(),
    ;
}

impl<T> ResultExt<T> for Result<T, StorageError> {
    open spec fn ok_view(&self) -> Option<T> {
        match self {
            Ok(v) => Some(*v),
            Err(_) => None,
        }
    }

    open spec fn err_message(&self) -> Seq<char> {
        match self {
            Ok(_) => Seq::empty(),
            Err(e) => e.message_spec(),
        }
    }

    fn map_storage_err(self) -> (r: Result<T, AppError>) {
        match self {
            Ok(v) => Ok(v),
            Err(e) => Err(AppError::Storage(e.message())),
        }
    }

    fn map_auth_err(self) -> (r: Result<T, AppError>) {
        match self {
            Ok(v) => Ok(v),
            Err(e) => Err(AppError::Auth(e.message())),
        }
    }
}

} // verus!
