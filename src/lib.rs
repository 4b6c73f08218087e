//! Archives each immediate subdirectory of a root directory into its own zip
//! file, skipping hidden and excluded subdirectories.
//!
//! The library holds the decisions: how paths are normalized and compared,
//! which directory entries are archived, how the recursive file walk proceeds,
//! and how the single archive writer of the concurrent strategy reacts to what
//! the reader tasks hand it. Reading, writing and compressing stay with the
//! caller.

pub mod error;
pub mod text;
pub mod option;
pub mod path;
pub mod zip_core;
pub mod fanin;
