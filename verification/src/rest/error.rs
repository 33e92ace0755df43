//! The one typed error that crosses every boundary of the REST service.
//!
//! Failures that carry an underlying cause keep that cause as text, for
//! diagnostics that never reach a client.

use vstd::prelude::*;

use crate::rest::json::JsonValue;
use crate::text::{decimal, decimal_string, signed_decimal, signed_decimal_string};

verus! {

/// Every failure the service can produce, grouped by how callers react to it.
#[derive(Debug)]
pub enum TaskError {
    /// An intentionally unimplemented capability.
    Incomplete { capability: String },
    /// A domain or request value that violates the rules; maps to HTTP `422`.
    Validation { field: String, message: String },
    /// A task ID that does not exist; maps to HTTP `404`.
    NotFound { id: i64 },
    /// A persistence failure; the source is kept for logs only.
    Storage { operation: String, source: String },
    /// An unexpected internal failure such as a panicked blocking task.
    Internal { operation: String, source: String },
    /// Invalid client configuration (base URL or timeout).
    ClientConfiguration { field: String, message: String },
    /// A documented API error decoded from a server response by the client.
    Api { status: u16, code: String, message: String, details: Option<JsonValue> },
    /// A server response the client could not trust.
    UnexpectedResponse { message: String },
    /// A transport failure; `timeout` distinguishes a deadline from other
    /// connection errors.
    Connection { timeout: bool, source: String },
    /// A server bind/serve/shutdown failure.
    Lifecycle { operation: String, source: String },
}

/// `e` is a validation error on `field` with `message`.
pub open spec fn is_validation(e: TaskError, field: Seq<char>, message: Seq<char>) -> bool {
    e matches TaskError::Validation { field: f, message: m } && f@ == field && m@ == message
}

/// `e` is a storage error of `operation`.
pub open spec fn is_storage(e: TaskError, operation: Seq<char>) -> bool {
    e matches TaskError::Storage { operation: o, .. } && o@ == operation
}

/// `e` is an unexpected-response error with `message`.
pub open spec fn is_unexpected(e: TaskError, message: Seq<char>) -> bool {
    e matches TaskError::UnexpectedResponse { message: m } && m@ == message
}

/// The human-readable text of an error, as operators and logs see it.
pub open spec fn error_text(e: TaskError) -> Seq<char> {
    match e {
        TaskError::Incomplete { capability } => "incomplete project capability: "@ + capability@,
        TaskError::Validation { message, .. } => message@,
        TaskError::NotFound { id } => "task "@ + signed_decimal(id) + " was not found"@,
        TaskError::Storage { operation, source } => "task storage "@ + operation@ + " failed: "@ + source@,
        TaskError::Internal { operation, source } => "internal operation "@ + operation@ + " failed: "@ + source@,
        TaskError::ClientConfiguration { message, .. } => message@,
        TaskError::Api { status, code, message, .. } => "API returned "@ + decimal(status as nat) + " "@ + code@
            + ": "@ + message@,
        TaskError::UnexpectedResponse { message } => "unexpected server response: "@ + message@,
        TaskError::Connection { .. } => "request failed"@,
        TaskError::Lifecycle { operation, source } => "server lifecycle "@ + operation@ + " failed: "@ + source@,
    }
}

fn joined(a: &str, b: &str, c: &str, d: &str) -> (r: String)
    ensures
        r@ == a@ + b@ + c@ + d@,
{
    let mut m = String::from_str(a);
    m.append(b);
    m.append(c);
    m.append(d);
    m
}

impl TaskError {
    /// The human-readable text of this error.
    pub fn message(&self) -> (r: String)
        ensures
            r@ == error_text(*self),
    {
        match self {
            TaskError::Incomplete { capability } => {
                let mut m = String::from_str("incomplete project capability: ");
                m.append(capability.as_str());
                m
            },
            TaskError::Validation { message, .. } => message.clone(),
            TaskError::NotFound { id } => {
                let mut m = String::from_str("task ");
                m.append(signed_decimal_string(*id).as_str());
                m.append(" was not found");
                m
            },
            TaskError::Storage { operation, source } => joined("task storage ", operation.as_str(), " failed: ", source.as_str()),
            TaskError::Internal { operation, source } => joined("internal operation ", operation.as_str(), " failed: ", source.as_str()),
            TaskError::ClientConfiguration { message, .. } => message.clone(),
            TaskError::Api { status, code, message, .. } => {
                let mut m = joined("API returned ", decimal_string(*status as u64).as_str(), " ", code.as_str());
                m.append(": ");
                m.append(message.as_str());
                m
            },
            TaskError::UnexpectedResponse { message } => {
                let mut m = String::from_str("unexpected server response: ");
                m.append(message.as_str());
                m
            },
            TaskError::Connection { .. } => String::from_str("request failed"),
            TaskError::Lifecycle { operation, source } => joined("server lifecycle ", operation.as_str(), " failed: ", source.as_str()),
        }
    }

    /// Marks an unfinished capability.
    pub fn incomplete(capability: &str) -> (r: TaskError)
        ensures
            r matches TaskError::Incomplete { capability: c } && c@ == capability@,
    {
        TaskError::Incomplete { capability: String::from_str(capability) }
    }

    /// Builds a validation error tagged with the offending `field`.
    pub fn validation(field: &str, message: &str) -> (r: TaskError)
        ensures
            is_validation(r, field@, message@),
    {
        TaskError::Validation { field: String::from_str(field), message: String::from_str(message) }
    }

    /// Builds a not-found error for `id`.
    pub fn not_found(id: i64) -> (r: TaskError)
        ensures
            r == (TaskError::NotFound { id }),
    {
        TaskError::NotFound { id }
    }

    /// Wraps a persistence failure, keeping its description.
    pub fn storage(operation: &str, source: &str) -> (r: TaskError)
        ensures
            r matches TaskError::Storage { operation: o, source: s } && o@ == operation@ && s@
                == source@,
    {
        TaskError::Storage { operation: String::from_str(operation), source: String::from_str(source) }
    }

    /// Wraps an unexpected internal failure, keeping its description.
    pub fn internal(operation: &str, source: &str) -> (r: TaskError)
        ensures
            r matches TaskError::Internal { operation: o, source: s } && o@ == operation@ && s@
                == source@,
    {
        TaskError::Internal { operation: String::from_str(operation), source: String::from_str(source) }
    }

    /// Builds a client configuration error tagged with `field`.
    pub fn client_configuration(field: &str, message: &str) -> (r: TaskError)
        ensures
            r matches TaskError::ClientConfiguration { field: f, message: m } && f@ == field@ && m@
                == message@,
    {
        TaskError::ClientConfiguration {
            field: String::from_str(field),
            message: String::from_str(message),
        }
    }

    /// Builds a decoded API error.
    pub fn api(status: u16, code: &str, message: &str, details: Option<JsonValue>) -> (r: TaskError)
        ensures
            r matches TaskError::Api { status: s, code: c, message: m, details: d } && s == status
                && c@ == code@ && m@ == message@ && d == details,
    {
        TaskError::Api {
            status,
            code: String::from_str(code),
            message: String::from_str(message),
            details,
        }
    }

    /// Builds an error for a response that violated the wire contract.
    pub fn unexpected_response(message: &str) -> (r: TaskError)
        ensures
            is_unexpected(r, message@),
    {
        TaskError::UnexpectedResponse { message: String::from_str(message) }
    }

    /// Wraps a transport failure.
    pub fn connection(source: &str, timeout: bool) -> (r: TaskError)
        ensures
            r matches TaskError::Connection { timeout: t, source: s } && t == timeout && s@
                == source@,
    {
        TaskError::Connection { timeout, source: String::from_str(source) }
    }

    /// Wraps a server lifecycle failure.
    pub fn lifecycle(operation: &str, source: &str) -> (r: TaskError)
        ensures
            r matches TaskError::Lifecycle { operation: o, source: s } && o@ == operation@ && s@
                == source@,
    {
        TaskError::Lifecycle {
            operation: String::from_str(operation),
            source: String::from_str(source),
        }
    }

    /// The missing capability of an [`TaskError::Incomplete`] error.
    pub fn incomplete_capability(&self) -> (r: Option<&str>)
        ensures
            *self matches TaskError::Incomplete { capability } ==> (r matches Some(c) && c@
                == capability@),
            !(*self is Incomplete) ==> r is None,
    {
        match self {
            TaskError::Incomplete { capability } => Some(capability.as_str()),
            _ => None,
        }
    }

    /// The field and message of a validation error.
    pub fn validation_details(&self) -> (r: Option<(&str, &str)>)
        ensures
            *self matches TaskError::Validation { field, message } ==> (r matches Some((f, m))
                && f@ == field@ && m@ == message@),
            !(*self is Validation) ==> r is None,
    {
        match self {
            TaskError::Validation { field, message } => Some((field.as_str(), message.as_str())),
            _ => None,
        }
    }

    /// The missing ID of a not-found error.
    pub fn not_found_id(&self) -> (r: Option<i64>)
        ensures
            *self matches TaskError::NotFound { id } ==> r == Some(id),
            !(*self is NotFound) ==> r is None,
    {
        match self {
            TaskError::NotFound { id } => Some(*id),
            _ => None,
        }
    }

    /// The operation of a storage error.
    pub fn storage_operation(&self) -> (r: Option<&str>)
        ensures
            *self matches TaskError::Storage { operation, .. } ==> (r matches Some(o) && o@
                == operation@),
            !(*self is Storage) ==> r is None,
    {
        match self {
            TaskError::Storage { operation, .. } => Some(operation.as_str()),
            _ => None,
        }
    }

    /// The status, code, message and details of an API error.
    pub fn api_details(&self) -> (r: Option<(u16, &str, &str, Option<&JsonValue>)>)
        ensures
            *self matches TaskError::Api { status, code, message, details } ==> (r matches Some(
                (s, c, m, d),
            ) && s == status && c@ == code@ && m@ == message@ && (d matches Some(x) ==> details
                == Some(*x)) && (d is None ==> details is None)),
            !(*self is Api) ==> r is None,
    {
        match self {
            TaskError::Api { status, code, message, details } => Some(
                (
                    *status,
                    code.as_str(),
                    message.as_str(),
                    match details {
                        Some(d) => Some(d),
                        None => None,
                    },
                ),
            ),
            _ => None,
        }
    }

    /// Why a response was untrustworthy.
    pub fn unexpected_response_message(&self) -> (r: Option<&str>)
        ensures
            *self matches TaskError::UnexpectedResponse { message } ==> (r matches Some(m) && m@
                == message@),
            !(*self is UnexpectedResponse) ==> r is None,
    {
        match self {
            TaskError::UnexpectedResponse { message } => Some(message.as_str()),
            _ => None,
        }
    }

    /// Whether this is a transport failure.
    pub fn is_connection(&self) -> (r: bool)
        ensures
            r == (self is Connection),
    {
        match self {
            TaskError::Connection { .. } => true,
            _ => false,
        }
    }

    /// Whether this is a transport timeout.
    pub fn is_timeout(&self) -> (r: bool)
        ensures
            r == (*self matches TaskError::Connection { timeout, .. } && timeout),
    {
        match self {
            TaskError::Connection { timeout, .. } => *timeout,
            _ => false,
        }
    }

    /// The field and message of a client configuration error.
    pub fn client_configuration_details(&self) -> (r: Option<(&str, &str)>)
        ensures
            *self matches TaskError::ClientConfiguration { field, message } ==> (r matches Some(
                (f, m),
            ) && f@ == field@ && m@ == message@),
            !(*self is ClientConfiguration) ==> r is None,
    {
        match self {
            TaskError::ClientConfiguration { field, message } => Some(
                (field.as_str(), message.as_str()),
            ),
            _ => None,
        }
    }
}

} // verus!
