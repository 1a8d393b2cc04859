//! An embedded document store whose decisions are verified and whose file
//! system work is left to the caller.
//!
//! Documents are `bson` documents. Each lies in a file of its own,
//! `<root>/<collection>/<id>.bson`, and an index in memory records, for the
//! fields that were declared, which documents have them.
//!
//! The store performs no input or output. Every operation of
//! [`db::Database`] comes in two halves: one that hands out the requests to be
//! served by the file system, and one that takes the answers and decides what
//! the operation returns and how the index changes. The caller serves the
//! requests in between, in their order, for as long as
//! [`exchange::continues_after`] says.
//!
//! - [`db`]: the store and its operations.
//! - [`exchange`]: requests, answers and failures.
//! - [`path`]: where collections and documents lie, and which names are safe.
//! - [`index`]: the field index.
//! - [`query`]: choosing the documents that meet a query.
//! - [`document`], [`identifier`]: what is taken from `bson`.
//! - [`disk`]: a model of a healthy file system.
//! - [`laws`]: what is proved of the store against that model.

pub mod db;
pub mod disk;
pub mod document;
pub mod error;
pub mod exchange;
pub mod identifier;
pub mod index;
pub mod laws;
pub mod path;
pub mod query;
