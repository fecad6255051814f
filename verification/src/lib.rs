//! Finding files: glob patterns over names and paths, and the records of a
//! directory tree filtered by them and by type, owner and permission bits.

pub mod args;
pub mod command;
pub mod errors;
pub mod matcher;
pub mod number;
pub mod options;
pub mod pattern;
pub mod sequences;
pub mod text;
pub mod walker;
