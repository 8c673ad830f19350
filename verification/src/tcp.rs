//! Messages between machines: discovery of the files that a daemon serves,
//! and the download of one chunk of a file.
use crate::ipc::FileTable;
use vstd::prelude::*;

verus! {

/// A request to a daemon on the network.
pub enum TCPRequest {
    Discovery,
    /// The key of a file and the index of a 1 MiB chunk of it.
    Download(String, usize),
}

/// A daemon's answer over the network.
pub enum TCPResponse {
    Discovery { session_id: String, files: FileTable },
    FileChunk(Vec<u8>),
    Error(String),
    Other,
}

} // verus!
