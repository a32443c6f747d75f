//! `lsc`, a colored directory listing: how entries are read into shown
//! texts, sorted and laid out in columns or long lines, verified.
pub use file::{prepare_files, DirItem, File, FileKind, FileMeta, ListingError};
pub use listing::{run, Config, RunError};

pub mod text;
pub mod colors;
pub mod file;
pub mod order;
pub mod cli;
pub mod listing;
