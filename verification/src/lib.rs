//! A small engine for versioned SQL schema migrations.
//!
//! A migration lives on disk as a file with an `-- up` section and a
//! `-- down` section, and in the database as a ledger row recording the
//! SQL that was actually applied. This crate holds the logic that is
//! independent of any particular filesystem or database: parsing the
//! file format, reconciling on-disk definitions against ledger records,
//! choosing which SQL a revert must run, and assembling configuration
//! values. Callers supply the I/O around it.

pub mod config;
pub mod error;
pub mod file;
pub mod migration;
pub mod planner;
pub mod text;
