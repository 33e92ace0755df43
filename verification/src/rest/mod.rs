//! The rules of the task REST service: the task domain and its validation,
//! the typed error, the strict request boundary, the response decoding of the
//! client, the application service, the command-line exit policy and the persisted Markdown and SQLite
//! row formats.

pub mod boundary;
pub mod cli;
pub mod client;
pub mod client_error;
pub mod domain;

pub mod json;
pub mod error;
pub mod http;
pub mod markdown;
pub mod server;
pub mod service;
pub mod sqlite;
