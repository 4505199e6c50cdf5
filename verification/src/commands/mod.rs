//! What the application's commands decide, apart from the reading and
//! writing of files.
pub mod batch;
pub mod settings;
pub mod video;
