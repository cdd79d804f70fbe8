//! Batch orchestration of git clone and fetch operations.
//!
//! The library resolves the work of a batch, decides what runs when under a
//! sequential or bounded execution mode, and supervises each operation by
//! the lines it prints. It performs no I/O itself: callers hand it what
//! they read and carry out the actions it answers with.
//!
//! - [`dl_upd`] and [`git_ops`]: from a configuration and what was found on
//!   disk to a batch that is ready to run;
//! - [`resolver`] and [`checkouts`]: the items of a batch, from list files
//!   or from a walk of the source folder;
//! - [`executor`]: the decisions of a run, item by item;
//! - [`supervisor`] and [`classifier`]: the life of one subprocess, and the
//!   policy that tells a failure from its output;
//! - [`work`], [`paths`] and [`text`]: the data of a batch, paths as text,
//!   and splitting;
//! - [`outside`]: what is taken on trust of other crates.

pub mod checkouts;
pub mod classifier;
pub mod dl_upd;
pub mod executor;
pub mod git_ops;
pub mod outside;
pub mod paths;
pub mod resolver;
pub mod supervisor;
pub mod text;
pub mod work;
