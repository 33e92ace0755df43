//! Task management: a validated task domain with an in-memory store, and the
//! rules of a task REST service (titles, patches, request decoding, wire
//! formats and persisted documents).

pub mod cli;
pub mod domain;
pub mod rest;
pub mod storage;
pub mod text;
