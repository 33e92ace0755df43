//! Errors produced at the outbound boundary: client configuration, transport
//! and response decoding. A failure that crosses from the core keeps its
//! [`TaskError`]; the underlying causes of transport and internal failures
//! are kept as text.

use vstd::prelude::*;

use crate::rest::error::{error_text, TaskError};
use crate::rest::json::JsonValue;
use crate::text::{decimal, decimal_string};

verus! {

/// A failure at the outbound HTTP or command-line boundary.
#[derive(Debug)]
pub enum ClientError {
    /// A shared task validation or unfinished-capability failure.
    Task(TaskError),
    /// Invalid local configuration such as a base URL or timeout.
    Configuration { field: String, message: String },
    /// A documented API error decoded from a server response.
    Api { status: u16, code: String, message: String, details: Option<JsonValue> },
    /// A server response the client could not trust.
    UnexpectedResponse { message: String },
    /// A transport failure; `timeout` distinguishes deadline expiry.
    Connection { timeout: bool, source: String },
    /// An unexpected client-side serialization or rendering failure.
    Internal { operation: String, source: String },
}

/// The human-readable text of a client error.
pub open spec fn client_error_text(e: ClientError) -> Seq<char> {
    match e {
        ClientError::Task(t) => error_text(t),
        ClientError::Configuration { message, .. } => message@,
        ClientError::Api { status, code, message, .. } => "API returned "@ + decimal(status as nat) + " "@
            + code@ + ": "@ + message@,
        ClientError::UnexpectedResponse { message } => "unexpected server response: "@ + message@,
        ClientError::Connection { .. } => "request failed"@,
        ClientError::Internal { operation, source } => "internal operation "@ + operation@ + " failed: "@
            + source@,
    }
}

impl From<TaskError> for ClientError {
    fn from(error: TaskError) -> (r: ClientError) {
        ClientError::Task(error)
    }
}

impl vstd::std_specs::convert::FromSpecImpl<TaskError> for ClientError {
    open spec fn obeys_from_spec() -> bool {
        true
    }

    open spec fn from_spec(v: TaskError) -> ClientError {
        ClientError::Task(v)
    }
}

impl ClientError {
    /// Builds a configuration error tagged with the offending `field`.
    pub fn configuration(field: &str, message: &str) -> (r: ClientError)
        ensures
            r matches ClientError::Configuration { field: f, message: m } && f@ == field@ && m@ == message@,
    {
        ClientError::Configuration { field: String::from_str(field), message: String::from_str(message) }
    }

    /// Builds a decoded API error.
    pub fn api(status: u16, code: &str, message: &str, details: Option<JsonValue>) -> (r: ClientError)
        ensures
            r matches ClientError::Api { status: s, code: c, message: m, details: d } && s == status
                && c@ == code@ && m@ == message@ && d == details,
    {
        ClientError::Api {
            status,
            code: String::from_str(code),
            message: String::from_str(message),
            details,
        }
    }

    /// Builds an error for a response that violated the wire contract.
    pub fn unexpected_response(message: &str) -> (r: ClientError)
        ensures
            r matches ClientError::UnexpectedResponse { message: m } && m@ == message@,
    {
        ClientError::UnexpectedResponse { message: String::from_str(message) }
    }

    /// Wraps a transport failure, keeping its description.
    pub fn connection(source: &str, timeout: bool) -> (r: ClientError)
        ensures
            r matches ClientError::Connection { timeout: t, source: s } && t == timeout && s@ == source@,
    {
        ClientError::Connection { timeout, source: String::from_str(source) }
    }

    /// Wraps an unexpected client-side failure, keeping its description.
    pub fn internal(operation: &str, source: &str) -> (r: ClientError)
        ensures
            r matches ClientError::Internal { operation: o, source: s } && o@ == operation@ && s@ == source@,
    {
        ClientError::Internal { operation: String::from_str(operation), source: String::from_str(source) }
    }

    /// The wrapped core error, if any.
    pub fn task_error(&self) -> (r: Option<&TaskError>)
        ensures
            *self matches ClientError::Task(t) ==> r == Some(&t),
            !(*self is Task) ==> r is None,
    {
        match self {
            ClientError::Task(error) => Some(error),
            _ => None,
        }
    }

    /// The status, code, message and details of an API error.
    pub fn api_details(&self) -> (r: Option<(u16, &str, &str, Option<&JsonValue>)>)
        ensures
            *self matches ClientError::Api { status, code, message, details } ==> (r matches Some(
                (s, c, m, d),
            ) && s == status && c@ == code@ && m@ == message@ && (d matches Some(x) ==> details
                == Some(*x)) && (d is None ==> details is None)),
            !(*self is Api) ==> r is None,
    {
        match self {
            ClientError::Api { status, code, message, details } => Some(
                (
                    *status,
                    code.as_str(),
                    message.as_str(),
                    match details {
                        Some(d) => Some(d),
                        None => None,
                    },
                ),
            ),
            _ => None,
        }
    }

    /// Why a response was untrustworthy.
    pub fn unexpected_response_message(&self) -> (r: Option<&str>)
        ensures
            *self matches ClientError::UnexpectedResponse { message } ==> (r matches Some(m) && m@
                == message@),
            !(*self is UnexpectedResponse) ==> r is None,
    {
        match self {
            ClientError::UnexpectedResponse { message } => Some(message.as_str()),
            _ => None,
        }
    }

    /// Whether this is a transport failure.
    pub fn is_connection(&self) -> (r: bool)
        ensures
            r == (self is Connection),
    {
        match self {
            ClientError::Connection { .. } => true,
            _ => false,
        }
    }

    /// Whether this is a transport timeout.
    pub fn is_timeout(&self) -> (r: bool)
        ensures
            r == (*self matches ClientError::Connection { timeout, .. } && timeout),
    {
        match self {
            ClientError::Connection { timeout, .. } => *timeout,
            _ => false,
        }
    }

    /// The field and message of a configuration error.
    pub fn configuration_details(&self) -> (r: Option<(&str, &str)>)
        ensures
            *self matches ClientError::Configuration { field, message } ==> (r matches Some((f, m))
                && f@ == field@ && m@ == message@),
            !(*self is Configuration) ==> r is None,
    {
        match self {
            ClientError::Configuration { field, message } => Some((field.as_str(), message.as_str())),
            _ => None,
        }
    }

    /// The field and message of a wrapped validation error.
    pub fn validation_details(&self) -> (r: Option<(&str, &str)>)
        ensures
            *self matches ClientError::Task(TaskError::Validation { field, message }) ==> (r matches Some(
                (f, m),
            ) && f@ == field@ && m@ == message@),
            !(*self matches ClientError::Task(TaskError::Validation { .. })) ==> r is None,
    {
        match self {
            ClientError::Task(error) => error.validation_details(),
            _ => None,
        }
    }

    /// The human-readable text of this error.
    pub fn message(&self) -> (r: String)
        ensures
            r@ == client_error_text(*self),
    {
        match self {
            ClientError::Task(error) => error.message(),
            ClientError::Configuration { message, .. } => message.clone(),
            ClientError::Api { status, code, message, .. } => {
                let mut m = String::from_str("API returned ");
                m.append(decimal_string(*status as u64).as_str());
                m.append(" ");
                m.append(code.as_str());
                m.append(": ");
                m.append(message.as_str());
                m
            },
            ClientError::UnexpectedResponse { message } => {
                let mut m = String::from_str("unexpected server response: ");
                m.append(message.as_str());
                m
            },
            ClientError::Connection { .. } => String::from_str("request failed"),
            ClientError::Internal { operation, source } => {
                let mut m = String::from_str("internal operation ");
                m.append(operation.as_str());
                m.append(" failed: ");
                m.append(source.as_str());
                m
            },
        }
    }
}

} // verus!
