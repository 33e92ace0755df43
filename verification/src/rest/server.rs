//! The server's configuration and lifecycle errors: which framework serves
//! the shared boundary, which backend stores the tasks, and where it listens.

use vstd::prelude::*;

use crate::rest::error::{error_text, TaskError};

verus! {

/// Which HTTP framework serves the shared boundary.
#[derive(Clone, Copy, Debug, PartialEq, Eq)]
pub enum ServerKind {
    Axum,
    Actix,
}

/// Which persistence backend the service uses.
#[derive(Clone, Copy, Debug, PartialEq, Eq)]
pub enum BackendKind {
    Sqlite,
    Markdown,
}

/// Server options: framework, backend, data path, and bind address.
#[derive(Debug)]
pub struct ServerConfig {
    pub server: ServerKind,
    pub backend: BackendKind,
    pub data: String,
    pub host: String,
    pub port: u16,
}

impl Default for ServerConfig {
    /// Axum over SQLite in `tasks.db`, listening on `127.0.0.1:8000`.
    fn default() -> (r: ServerConfig)
        ensures
            r.server == ServerKind::Axum,
            r.backend == BackendKind::Sqlite,
            r.data@ == "tasks.db"@,
            r.host@ == "127.0.0.1"@,
            r.port == 8000,
    {
        ServerConfig {
            server: ServerKind::Axum,
            backend: BackendKind::Sqlite,
            data: String::from_str("tasks.db"),
            host: String::from_str("127.0.0.1"),
            port: 8000,
        }
    }
}

/// A failure at the inbound server lifecycle boundary.
#[derive(Debug)]
pub enum ServerError {
    /// A core, application or storage failure met while composing the server.
    Task(TaskError),
    /// A bind, serve, shutdown or worker-thread failure.
    Lifecycle { operation: String, source: String },
    /// An unexpected server-composition failure.
    Internal { operation: String, source: String },
}

/// The human-readable text of a server error.
pub open spec fn server_error_text(e: ServerError) -> Seq<char> {
    match e {
        ServerError::Task(t) => error_text(t),
        ServerError::Lifecycle { operation, source } => "server lifecycle "@ + operation@ + " failed: "@ + source@,
        ServerError::Internal { operation, source } => "internal operation "@ + operation@ + " failed: "@ + source@,
    }
}

impl From<TaskError> for ServerError {
    fn from(error: TaskError) -> (r: ServerError) {
        ServerError::Task(error)
    }
}

impl vstd::std_specs::convert::FromSpecImpl<TaskError> for ServerError {
    open spec fn obeys_from_spec() -> bool {
        true
    }

    open spec fn from_spec(v: TaskError) -> ServerError {
        ServerError::Task(v)
    }
}

impl ServerError {
    /// Wraps a lifecycle failure, keeping its description.
    pub fn lifecycle(operation: &str, source: &str) -> (r: ServerError)
        ensures
            r matches ServerError::Lifecycle { operation: o, source: s } && o@ == operation@ && s@ == source@,
    {
        ServerError::Lifecycle { operation: String::from_str(operation), source: String::from_str(source) }
    }

    /// Wraps an unexpected server-composition failure, keeping its description.
    pub fn internal(operation: &str, source: &str) -> (r: ServerError)
        ensures
            r matches ServerError::Internal { operation: o, source: s } && o@ == operation@ && s@ == source@,
    {
        ServerError::Internal { operation: String::from_str(operation), source: String::from_str(source) }
    }

    /// The wrapped core error, if any.
    pub fn task_error(&self) -> (r: Option<&TaskError>)
        ensures
            *self matches ServerError::Task(t) ==> r == Some(&t),
            !(*self is Task) ==> r is None,
    {
        match self {
            ServerError::Task(error) => Some(error),
            _ => None,
        }
    }

    /// The human-readable text of this error.
    pub fn message(&self) -> (r: String)
        ensures
            r@ == server_error_text(*self),
    {
        match self {
            ServerError::Task(error) => error.message(),
            ServerError::Lifecycle { operation, source } => {
                let mut m = String::from_str("server lifecycle ");
                m.append(operation.as_str());
                m.append(" failed: ");
                m.append(source.as_str());
                m
            },
            ServerError::Internal { operation, source } => {
                let mut m = String::from_str("internal operation ");
                m.append(operation.as_str());
                m.append(" failed: ");
                m.append(source.as_str());
                m
            },
        }
    }
}

} // verus!
