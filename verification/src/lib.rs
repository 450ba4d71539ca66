//! The logic of a desktop editor for bot projects, verified with Verus.
//!
//! The core is the snapshot engine: `traversal` decides what a snapshot of a
//! project tree records, `hasher` fingerprints each recorded text, `backup`
//! holds the snapshots and their index, and `tree` states, over a model of a
//! project tree, what a snapshot must hold and proves that a traversal
//! records exactly that.
//!
//! Around it stand the activity journal (`activity_log`), the diagnostics of
//! source files (`diagnostics`), the preparation of requests to a completion
//! model and the reading of its responses (`completion`), the classification
//! of project files (`project`) and the search for references to environment
//! variables (`env_scan`), which goes through the regular expressions of
//! `pattern`. `text` holds the operations on character sequences that all of
//! them share.
//!
//! No function of the library reads or writes a file, asks the clock or
//! sends a request. Whoever drives the library does that, and hands each
//! outcome to the function that decides what follows from it.

pub mod activity_log;
pub mod backup;
pub mod completion;
pub mod diagnostics;
pub mod env_scan;
pub mod hasher;
pub mod pattern;
pub mod project;
pub mod text;
pub mod traversal;
pub mod tree;
