//! Finds the `reify` calls of Clojure sources, loose or packed in archives,
//! and reports the argument of each call.
//!
//! [`matcher`] walks a syntax tree, [`grammar`] obtains the tree from the
//! parser, [`archive`] reads the members of an archive, [`scan`] puts them
//! together unit by unit, and [`schedule`] holds what a run decides about
//! its arguments and says at its end.

pub mod archive;
pub mod bytes;
pub mod error;
pub mod grammar;
pub mod matcher;
pub mod matcher_laws;
pub mod scan;
pub mod scan_laws;
pub mod schedule;
pub mod syntax;
