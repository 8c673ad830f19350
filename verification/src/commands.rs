//! What the command-line front end makes of the daemon's answers.
use crate::ipc::{ClientError, FileTable, IPCRequest, IPCResponse};
use vstd::prelude::*;

verus! {

/// How a `stop` command ended.
pub enum StopOutcome {
    /// The last served file is gone and the daemon shuts down.
    LastFileRemoved,
    /// The file is no longer served; others still are.
    FileRemoved,
}

/// The request that `stop` sends: remove one key, or every file where no key is given.
pub fn stop_request(key: Option<String>) -> (request: IPCRequest)
    ensures
        match key {
            Some(k) => request == IPCRequest::RemoveFile { key: k },
            None => request is RemoveAllFiles,
        },
{
    match key {
        Some(k) => IPCRequest::RemoveFile { key: k },
        None => IPCRequest::RemoveAllFiles,
    }
}

/// Judges the daemon's answer to a `stop` request.
pub fn stop_outcome(response: IPCResponse) -> (r: Result<StopOutcome, ClientError>)
    ensures
        match response {
            IPCResponse::RemovedLastFile => r matches Ok(StopOutcome::LastFileRemoved),
            IPCResponse::Success => r matches Ok(StopOutcome::FileRemoved),
            IPCResponse::Error(m) => r == Err::<StopOutcome, ClientError>(ClientError::Refused(m)),
            _ => r == Err::<StopOutcome, ClientError>(ClientError::UnexpectedResponse(response)),
        },
{
    match response {
        IPCResponse::RemovedLastFile => Ok(StopOutcome::LastFileRemoved),
        IPCResponse::Success => Ok(StopOutcome::FileRemoved),
        IPCResponse::Error(m) => Err(ClientError::Refused(m)),
        _ => Err(ClientError::UnexpectedResponse(response)),
    }
}

/// The table of served files out of the daemon's answer to `ListFiles`.
pub fn listed_files(response: IPCResponse) -> (r: Result<FileTable, ClientError>)
    ensures
        match response {
            IPCResponse::Files(t) => r == Ok::<FileTable, ClientError>(t),
            _ => r == Err::<FileTable, ClientError>(ClientError::InvalidResponse(response)),
        },
{
    match response {
        IPCResponse::Files(t) => Ok(t),
        _ => Err(ClientError::InvalidResponse(response)),
    }
}

/// Judges the daemon's answer to `AddFile`.
pub fn upload_outcome(response: IPCResponse) -> (r: Result<(), ClientError>)
    ensures
        response is Success ==> r is Ok,
        !(response is Success) ==> r == Err::<(), ClientError>(ClientError::UploadFailed(response)),
{
    match response {
        IPCResponse::Success => Ok(()),
        _ => Err(ClientError::UploadFailed(response)),
    }
}

} // verus!
