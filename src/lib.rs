//! Infers structured metadata from comic-archive file names, renders the
//! canonical name back, and decides how a run of renames, moves and copies
//! proceeds over a set of target paths.

pub mod chars;
pub mod format;
pub mod grammar;
pub mod laws;
pub mod meta;
pub mod parse;
pub mod process;
pub mod round_trip;
pub mod settings;

pub use format::{Format, FormatError};
pub use meta::{IntError, Meta, MetaError};
pub use settings::{Args, Settings};
pub use process::Processor;
