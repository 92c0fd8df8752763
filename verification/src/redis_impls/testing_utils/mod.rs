//! Test-only Redis helpers used to exercise the Redis-backed implementations.
pub mod command;
pub mod connection;
pub mod encode;
pub mod harness;
pub mod resp;
pub mod server;
