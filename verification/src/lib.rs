//! Turns a declarative description of a directory tree into a flat, ordered
//! list of paths, and decides step by step how that list is created on disk.
//!
//! - [`entities`]: the tree, its entries, and the walker that flattens a tree.
//! - [`template`]: a whole template of several trees and loose files.
//! - [`creator`]: the materializer, as a state machine that touches no disk.
//! - [`error`]: what can go wrong.
//! - [`walk_laws`], [`run_laws`]: what is proved of the walker and of runs of
//!   the materializer.

pub mod creator;
pub mod entities;
pub mod error;
pub mod run_laws;
pub mod template;
pub mod walk_laws;
