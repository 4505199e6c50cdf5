//! Metadata guessed from file names and merged from embedded sources.
pub mod book;
pub mod reader;
pub mod video;
pub mod writer;
