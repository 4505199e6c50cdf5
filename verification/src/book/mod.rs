//! Comic archives and EPUB packages.
pub mod archive;
pub mod comicinfo;
pub mod comicinfo_law;
pub mod opf;
pub mod xml;
