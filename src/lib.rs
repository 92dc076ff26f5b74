//! Storage for a blockchain indexer: blocks, transactions, outputs and inputs
//! kept consistent under atomic inserts and height-indexed rollbacks.
//!
//! `store` holds an in-memory store with exact contracts; `laws` proves how
//! its operations relate; `sql` turns the same operations into statement
//! plans and column encodings for a relational backend.

pub mod rows;
pub mod store;
pub mod laws;
pub mod sql;
