//! Requests that the command-line front end sends to the local daemon, and
//! the daemon's answers.
use crate::table::StrMap;
use vstd::prelude::*;

verus! {

/// The files that a daemon serves: key, then the file's path and its number of 1 MiB chunks.
pub type FileTable = StrMap<(String, usize)>;

/// A request to the local daemon.
pub enum IPCRequest {
    Ping,
    AddFile { key: String, path: String, chunks: usize },
    RemoveFile { key: String },
    RemoveAllFiles,
    ListFiles,
}

/// The local daemon's answer.
pub enum IPCResponse {
    /// The request was carried out.
    Success,
    Files(FileTable),
    Error(String),
    RemovedLastFile,
    Pong(String),
}

/// Why the front end gave up on what the daemon answered.
pub enum ClientError {
    /// An answer of a kind that the request does not call for.
    InvalidResponse(IPCResponse),
    /// An answer that the command did not expect.
    UnexpectedResponse(IPCResponse),
    /// The daemon refused, with its message.
    Refused(String),
    /// The daemon did not take the file it was given.
    UploadFailed(IPCResponse),
}

/// The client side of the local channel.
pub struct IPCClient {}

impl IPCClient {
    /// Judges the daemon's answer to a `Ping`: the connection is good when it answered `Success`.
    pub fn check_connection(response: IPCResponse) -> (r: Result<(), ClientError>)
        ensures
            response is Success ==> r is Ok,
            !(response is Success) ==> r == Err::<(), ClientError>(ClientError::InvalidResponse(response)),
    {
        if let IPCResponse::Success = response {
            Ok(())
        } else {
            Err(ClientError::InvalidResponse(response))
        }
    }
}

} // verus!
