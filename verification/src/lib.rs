//! A gateway for a GraphQL-like query and mutation language: a verified
//! recursive-descent parser producing typed syntax trees, a verified
//! translator from trees to parameterized SQL text and from result rows
//! back to response text, and the verified per-connection and pool-level
//! state machines the reactor drives.  Sockets, threads and the backend
//! store stay with the unverified runtime around this library.

pub mod ast;
pub mod parser;
pub mod translate;
pub mod connection;
pub mod pool;
pub mod render;
