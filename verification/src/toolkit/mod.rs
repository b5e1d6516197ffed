//! Downloading and unpacking snapshot archives.

pub mod decompress_file;
pub mod download_file;
