pub mod album;
pub mod artist;
pub mod book;
pub mod media_file;
pub mod provider_result;
pub mod track;
pub mod video;
