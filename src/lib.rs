//! Directory listing laid out in aligned, colour-coded columns.
//!
//! The library holds the decisions of the listing: the settings file format,
//! how each directory child is classified, truncated and filtered, the shared
//! column width, the padding, the number of columns per line and the text
//! that is finally printed. Reading the directory, the settings file and the
//! terminal size is left to the caller, who hands in plain values.

pub mod cli;
pub mod config;
pub mod entry;
pub mod layout;
pub mod text;
