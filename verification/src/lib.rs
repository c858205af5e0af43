//! The core of a manager for a working set of Mercurial repositories.
//!
//! The crate keeps the list of tracked repositories, finds repositories in
//! directory walks, plans the commands of the `hg` client that an operation
//! needs, and merges what comes back into the list. It touches neither the
//! file system nor any process: a caller walks directories, runs commands and
//! moves messages between threads, and hands in what it met.
//!
//! - [`command`]: a command to run, and the reply to one.
//! - [`repo`]: the record of one repository and the verbs on it.
//! - [`collection`]: the list of records and the merges into it.
//! - [`sorting`], [`stable`]: the order of the list.
//! - [`dispatch`]: operations on a selection, worker by worker.
//! - [`discovery`]: scans for repositories.
//! - [`branches`]: the branches offered for a switch.
//! - [`config`]: what is kept between runs.
//! - [`text`]: the text functions the others rest on.
pub mod branches;
pub mod collection;
pub mod command;
pub mod config;
pub mod discovery;
pub mod dispatch;
pub mod repo;
pub mod sorting;
pub mod stable;
pub mod text;
