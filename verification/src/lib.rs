//! A verified core for a package-intent manager.
//!
//! The library keeps, for each package on a machine, whether the user meant to
//! install it explicitly or accepts it as a dependency of something else,
//! together with an optional free-text memo.  Around that desired state it
//! offers:
//!
//! - a reconciliation engine: pure functions that compare the desired state
//!   with the classification reported by the system's package manager and
//!   produce a diff report or a converging action plan under a policy;
//! - an interactive classification session: a resumable, deterministic walk
//!   over a candidate package list that builds the desired state from
//!   per-package answers;
//! - the pure parts of state-file path resolution and of the listing and
//!   query commands.
//!
//! All I/O — the terminal, the state file on disk, the package manager
//! process — stays outside the library; callers hand in plain values and
//! carry out the returned plans.

pub mod diff;
pub mod error;
pub mod listing;
pub mod names;
pub mod observed;
pub mod order;
pub mod paths;
pub mod reconcile;
pub mod session;
pub mod seqs;
pub mod state;
