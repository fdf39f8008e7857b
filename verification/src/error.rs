//! The error that every operation reports to the user interface.

use crate::models::Duplicate;
use crate::text::{cat3, cat4, clone_text};
use vstd::prelude::*;

verus! {

/// An error with a stable code, a message for the user and details for the log.
#[derive(Debug)]
pub struct AppError {
    pub code: &'static str,
    pub category: &'static str,
    pub message: String,
    pub technical_details: Option<String>,
    pub retryable: bool,
}

/// What an [`AppError`] says.
#[verifier::ext_equal]
pub struct ErrorView {
    pub code: Seq<char>,
    pub category: Seq<char>,
    pub message: Seq<char>,
    pub technical_details: Option<Seq<char>>,
    pub retryable: bool,
}

impl View for AppError {
    type V = ErrorView;

    open spec fn view(&self) -> ErrorView {
        ErrorView {
            code: self.code@,
            category: self.category@,
            message: self.message@,
            technical_details: self.technical_details.deep_view(),
            retryable: self.retryable,
        }
    }
}

impl DeepView for AppError {
    type V = ErrorView;

    open spec fn deep_view(&self) -> ErrorView {
        self@
    }
}

/// The error that an operation reports, or `None` where it succeeds.
pub open spec fn error_of<T>(outcome: Result<T, AppError>) -> Option<ErrorView> {
    match outcome {
        Ok(_) => None,
        Err(error) => Some(error@),
    }
}

/// Whether an operation ends as expected, with this value or this error.
pub open spec fn ends_as<T: DeepView>(
    outcome: Result<T, AppError>,
    expected: Result<T::V, ErrorView>,
) -> bool {
    match (outcome, expected) {
        (Ok(value), Ok(wanted)) => value.deep_view() == wanted,
        (Err(error), Err(wanted)) => error@ == wanted,
        _ => false,
    }
}

/// Whether an operation on a store ends as expected: with this state of the store
/// and this value, or with this error and the store as it was.
pub open spec fn changes_as<S, T: DeepView>(
    before: S,
    after: S,
    outcome: Result<T, AppError>,
    expected: Result<(S, T::V), ErrorView>,
) -> bool {
    match (outcome, expected) {
        (Ok(value), Ok((state, wanted))) => after == state && value.deep_view() == wanted,
        (Err(error), Err(wanted)) => after == before && error@ == wanted,
        _ => false,
    }
}

/// An error of the given kind with details.
pub open spec fn error_with(
    code: Seq<char>,
    category: Seq<char>,
    message: Seq<char>,
    details: Seq<char>,
    retryable: bool,
) -> ErrorView {
    ErrorView { code, category, message, technical_details: Some(details), retryable }
}

/// What [`AppError::session_not_found`] says.
pub open spec fn session_not_found_error(session_id: Seq<char>) -> ErrorView {
    error_with(
        "SESSION-NOT-FOUND"@,
        "session"@,
        "会话不存在或已经关闭"@,
        "session id "@ + session_id + " is not registered"@,
        false,
    )
}

/// What [`AppError::session_registry_unavailable`] says.
pub open spec fn session_registry_error() -> ErrorView {
    error_with(
        "SESSION-REGISTRY-UNAVAILABLE"@,
        "internal"@,
        "会话服务暂时不可用"@,
        "session registry lock was poisoned"@,
        true,
    )
}

/// What [`AppError::event_delivery_failed`] says.
pub open spec fn event_delivery_error(event: Seq<char>, details: Seq<char>) -> ErrorView {
    error_with(
        "IPC-EVENT-DELIVERY-FAILED"@,
        "ipc"@,
        "终端数据未能发送到界面"@,
        "failed to emit "@ + event + ": "@ + details,
        true,
    )
}

/// What [`AppError::validation`] says.
pub open spec fn validation_error(message: Seq<char>) -> ErrorView {
    ErrorView {
        code: "CONNECTION-INVALID"@,
        category: "validation"@,
        message,
        technical_details: None,
        retryable: false,
    }
}

/// What [`AppError::asset_not_found`] says.
pub open spec fn asset_not_found_error(kind: Seq<char>, id: Seq<char>) -> ErrorView {
    error_with(
        "ASSET-NOT-FOUND"@,
        "asset"@,
        "请求的连接数据不存在"@,
        kind + " "@ + id + " does not exist"@,
        false,
    )
}

/// What [`AppError::asset_storage`] says.
pub open spec fn asset_storage_error(message: Seq<char>, details: Seq<char>) -> ErrorView {
    error_with("ASSET-STORAGE-FAILED"@, "storage"@, message, details, true)
}

/// What [`AppError::storage`] says.
pub open spec fn storage_error(message: Seq<char>, details: Seq<char>) -> ErrorView {
    error_with("STORAGE-FAILED"@, "storage"@, message, details, true)
}

/// What [`AppError::credential`] says.
pub open spec fn credential_store_error(
    code: Seq<char>,
    message: Seq<char>,
    details: Seq<char>,
    retryable: bool,
) -> ErrorView {
    error_with(code, "credential"@, message, details, retryable)
}

/// What [`AppError::ssh`] says.
pub open spec fn ssh_error(
    code: Seq<char>,
    message: Seq<char>,
    details: Seq<char>,
    retryable: bool,
) -> ErrorView {
    error_with(code, "ssh"@, message, details, retryable)
}

/// What [`AppError::sftp`] says.
pub open spec fn sftp_error(code: Seq<char>, message: Seq<char>, details: Seq<char>) -> ErrorView {
    error_with(code, "sftp"@, message, details, true)
}

/// What [`AppError::cancelled`] says.
pub open spec fn cancelled_operation_error() -> ErrorView {
    error_with(
        "OPERATION-CANCELLED"@,
        "operation"@,
        "操作已取消"@,
        "operation cancelled by user"@,
        true,
    )
}

impl AppError {
    /// An error with details.
    fn with_details(
        code: &'static str,
        category: &'static str,
        message: &str,
        details: String,
        retryable: bool,
    ) -> (r: Self)
        ensures
            r@ == error_with(code@, category@, message@, details@, retryable),
    {
        AppError {
            code,
            category,
            message: message.to_owned(),
            technical_details: Some(details),
            retryable,
        }
    }

    /// No session has this id.
    pub fn session_not_found(session_id: &str) -> (r: Self)
        ensures
            r@ == session_not_found_error(session_id@),
    {
        AppError::with_details(
            "SESSION-NOT-FOUND",
            "session",
            "会话不存在或已经关闭",
            cat3("session id ", session_id, " is not registered"),
            false,
        )
    }

    /// The session registry cannot be used any more.
    pub fn session_registry_unavailable() -> (r: Self)
        ensures
            r@ == session_registry_error(),
    {
        AppError::with_details(
            "SESSION-REGISTRY-UNAVAILABLE",
            "internal",
            "会话服务暂时不可用",
            "session registry lock was poisoned".to_owned(),
            true,
        )
    }

    /// An event did not reach the user interface.
    pub fn event_delivery_failed(event: &'static str, details: &str) -> (r: Self)
        ensures
            r@ == event_delivery_error(event@, details@),
    {
        AppError::with_details(
            "IPC-EVENT-DELIVERY-FAILED",
            "ipc",
            "终端数据未能发送到界面",
            cat4("failed to emit ", event, ": ", details),
            true,
        )
    }

    /// The user entered something that cannot be accepted.
    pub fn validation(message: &str) -> (r: Self)
        ensures
            r@ == validation_error(message@),
    {
        AppError {
            code: "CONNECTION-INVALID",
            category: "validation",
            message: message.to_owned(),
            technical_details: None,
            retryable: false,
        }
    }

    /// No connection, group or tunnel has this id.
    pub fn asset_not_found(kind: &str, id: &str) -> (r: Self)
        ensures
            r@ == asset_not_found_error(kind@, id@),
    {
        AppError::with_details(
            "ASSET-NOT-FOUND",
            "asset",
            "请求的连接数据不存在",
            cat4(kind, " ", id, " does not exist"),
            false,
        )
    }

    /// The connection data could not be read or written.
    pub fn asset_storage(message: &str, details: &str) -> (r: Self)
        ensures
            r@ == asset_storage_error(message@, details@),
    {
        AppError::with_details("ASSET-STORAGE-FAILED", "storage", message, details.to_owned(), true)
    }

    /// Other data could not be read or written.
    pub fn storage(message: &str, details: &str) -> (r: Self)
        ensures
            r@ == storage_error(message@, details@),
    {
        AppError::with_details("STORAGE-FAILED", "storage", message, details.to_owned(), true)
    }

    /// A credential is missing or the credential store failed.
    pub fn credential(
        code: &'static str,
        message: &str,
        details: &str,
        retryable: bool,
    ) -> (r: Self)
        ensures
            r@ == credential_store_error(code@, message@, details@, retryable),
    {
        AppError::with_details(code, "credential", message, details.to_owned(), retryable)
    }

    /// An SSH connection, its network path or a tunnel failed.
    pub fn ssh(code: &'static str, message: &str, details: &str, retryable: bool) -> (r: Self)
        ensures
            r@ == ssh_error(code@, message@, details@, retryable),
    {
        AppError::with_details(code, "ssh", message, details.to_owned(), retryable)
    }

    /// A file operation failed.
    pub fn sftp(code: &'static str, message: &str, details: &str) -> (r: Self)
        ensures
            r@ == sftp_error(code@, message@, details@),
    {
        AppError::with_details(code, "sftp", message, details.to_owned(), true)
    }

    /// The user cancelled the operation.
    pub fn cancelled() -> (r: Self)
        ensures
            r@ == cancelled_operation_error(),
    {
        AppError::with_details(
            "OPERATION-CANCELLED",
            "operation",
            "操作已取消",
            "operation cancelled by user".to_owned(),
            true,
        )
    }
}

impl Duplicate for AppError {
    fn duplicate(&self) -> (r: Self) {
        AppError {
            code: self.code,
            category: self.category,
            message: self.message.clone(),
            technical_details: clone_text(&self.technical_details),
            retryable: self.retryable,
        }
    }
}

/// Errors say of what kind they are and whether another try may help: what the user entered
/// wrongly and what is not there does not change by itself, while storing, transferring and
/// cancelling may go better the next time.
pub proof fn errors_say_what_may_help(
    code: Seq<char>,
    message: Seq<char>,
    details: Seq<char>,
    retryable: bool,
)
    ensures
        validation_error(message).message == message,
        validation_error(message).code == "CONNECTION-INVALID"@,
        validation_error(message).technical_details is None,
        !validation_error(message).retryable,
        asset_not_found_error(code, details).code == "ASSET-NOT-FOUND"@,
        !asset_not_found_error(code, details).retryable,
        !session_not_found_error(code).retryable,
        asset_storage_error(message, details).retryable,
        asset_storage_error(message, details).message == message,
        asset_storage_error(message, details).technical_details == Some(details),
        storage_error(message, details).code == "STORAGE-FAILED"@,
        storage_error(message, details).message == message,
        storage_error(message, details).technical_details == Some(details),
        storage_error(message, details).retryable,
        sftp_error(code, message, details) == (ErrorView {
            code,
            category: "sftp"@,
            message,
            technical_details: Some(details),
            retryable: true,
        }),
        ssh_error(code, message, details, retryable) == (ErrorView {
            code,
            category: "ssh"@,
            message,
            technical_details: Some(details),
            retryable,
        }),
        credential_store_error(code, message, details, retryable) == (ErrorView {
            code,
            category: "credential"@,
            message,
            technical_details: Some(details),
            retryable,
        }),
        cancelled_operation_error().code == "OPERATION-CANCELLED"@,
        cancelled_operation_error().retryable,
        session_registry_error().retryable,
        event_delivery_error(code, details).retryable,
{
}

} // verus!
