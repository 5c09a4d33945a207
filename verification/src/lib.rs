//! A small document store for an art-commission workbook: clients and
//! commissions are kept as individual JSON files in a directory tree, with
//! a directory-encoded status state machine for commissions (pending and
//! in-progress work under `pendings/`, completed work under `history/`)
//! and sanitized-path image attachments.
//!
//! The data directory is modelled as a [`store::DataStore`], a list of
//! path-and-contents files with unique paths; an unverified shell mirrors
//! that model onto a real directory. Every operation on the model — the
//! validation layer, the record format with its legacy-tolerant reader,
//! the repositories and the status-transition algorithm — is verified, and
//! [`laws`] states the guarantees that span several operations.

pub mod client_repo;
pub mod commission_repo;
pub mod file_storage;
pub mod images;
pub mod json;
pub mod json_rt;
pub mod laws;
pub mod num;
pub mod records;
pub mod services;
pub mod store;
pub mod strutil;
pub mod validation;
