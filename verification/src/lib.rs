//! Planning, checking and scheduling of archive.org downloads.

pub mod archive_metadata;
pub mod check;
pub mod clock;
pub mod cookie;
pub mod display;
pub mod downloader;
pub mod error;
pub mod file_filter;
pub mod filename;
pub mod fs;
pub mod header;
pub mod link;
pub mod percent;
pub mod plan;
pub mod run;
pub mod session;
pub mod status;
pub mod styled;
pub mod text;
pub mod verbose;
