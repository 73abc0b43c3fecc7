//! A local pipeline runner for data-analysis projects.
//!
//! Given a named workflow (a shell script or Makefile, optionally paired with
//! a container definition), the library prepares the execution environment,
//! optionally swaps in a named data profile, assembles the command line for a
//! host or container run, and plans the restoration of the filesystem to its
//! pre-run layout afterward.
//!
//! The library itself never touches the disk, spawns a process, or reads the
//! clock: it computes plans (file moves, command lines, cache updates) from
//! plain values and proves what those plans contain.  A thin unverified shell
//! carries the plans out and feeds the observed outcomes back in.

pub mod cache;
pub mod errors;
pub mod executor;
pub mod filesystem_state;
pub mod options;
pub mod paths;
pub mod profile;
pub mod run;
pub mod summary;
pub mod swap;
pub mod text;
pub mod transaction;
pub mod utils;
