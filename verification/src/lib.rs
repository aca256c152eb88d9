//! A block executor that runs a batch of transactions speculatively, group by
//! group, and yields what running them one after another would yield; and
//! the state of an account as the ledger stores it, an ordered map from
//! access paths to blobs.
//!
//! The executor estimates what each transaction reads and writes, schedules
//! the batch into groups without conflicts, runs each group on the writes
//! committed by the groups before it, validates every run against its
//! estimate, and falls back to a sequential pass where an estimate is
//! missing or proves wrong. The interpreter and the estimator are handed in
//! as closures, and the executor then runs the members of a group one after
//! another. A caller that has a worker pool drives the speculative pass
//! itself: the pass hands out a group and its view, and takes back what the
//! runs gave.

pub mod access;
pub mod access_path;
pub mod account_state;
pub mod assembler;
pub mod bytes;
pub mod errors;
pub mod executor;
pub mod output;
pub mod pass;
pub mod resources;
pub mod roles;
pub mod scheduler;
pub mod speculation;
pub mod validator;
pub mod view;
pub mod vm;
