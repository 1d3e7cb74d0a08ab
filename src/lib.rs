//! A storage and query engine for Twine chains: Strands (signed chain
//! specifications) and Tixels (signed, hash-linked records), kept under the
//! append-only and linkage rules of the chain, with the query language,
//! registration workflow and API-key checks that gate access to it.
//!
//! Blocks enter the library already decoded and verified by the block codec:
//! each carries its CID in canonical text form, its raw bytes, and the fields
//! that the storage rules read.
use vstd::prelude::*;

pub mod block;
pub mod errors;
pub mod store;
pub mod ingest;
pub mod chain;
pub mod query;
pub mod resolve;
pub mod formatting;
pub mod registration;
pub mod access_control;
pub mod logging;
pub mod settings;
