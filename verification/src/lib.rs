pub mod book;
pub mod bytes;
pub mod chapters;
pub mod commands;
pub mod coverart;
pub mod dedup;
pub mod error;
pub mod metadata;
pub mod models;
pub mod nfo;
pub mod paths;
pub mod providers;
pub mod renamer;
pub mod text;
