//! Downloading a batch of files: resuming, retrying, verifying and
//! installing each of them.

pub mod attempts;
pub mod batch;
pub mod file;
pub mod mtime;
pub mod rate;
pub mod retry;
pub mod signal;
pub mod stream;
pub mod verify;

use vstd::prelude::*;

verus! {

/// A file to download, with the metadata that it is verified by.
#[derive(Debug)]
pub struct DownloadTask {
    /// Where the file is downloaded from.
    pub url: String,
    /// Where the file is stored.
    pub file_path: String,
    /// The MD5 hash in the metadata.
    pub expected_md5: Option<String>,
    /// The size in the metadata, in bytes.
    pub expected_size: Option<u64>,
    /// The modification time in the metadata, in Unix seconds.
    pub expected_mtime: Option<u64>,
}

} // verus!
