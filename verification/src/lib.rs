//! Git commits that carry their own abbreviated object ID.
//!
//! A commit's version file holds a prefix, and a nonce at the end of the commit is chosen so that
//! the commit's object ID starts with that prefix. This library holds what is decided and computed
//! on the way; reading, writing and running Git is left to its caller.

pub mod commit;
pub mod config;
pub mod discovery;
pub mod flow;
pub mod format;
pub mod git;
pub mod hash;
pub mod hex;
pub mod laws;
pub mod loose;
pub mod miner;
pub mod options;
pub mod path;
pub mod preparation;
pub mod prepared;
pub mod refs;
pub mod report;
pub mod repository;
pub mod target;
pub mod text;

pub use crate::format::ObjectFormat;
pub use crate::options::{CommitOptions, CommitOutcome};
