//! The daemon's state and its answers to requests from the local front end
//! and from machines on the network.
use crate::ipc::{FileTable, IPCRequest, IPCResponse};
use crate::tcp::{TCPRequest, TCPResponse};
use vstd::prelude::*;

verus! {

/// The size of one chunk of a served file: one mebibyte.
pub const CHUNK_SIZE: u64 = 1048576;

/// What a daemon holds: the files it serves and the id of its session.
pub struct DaemonState {
    pub served_files: FileTable,
    pub session_id: String,
}

/// The table of served files after `request`, as a map from key to path and chunk count.
pub open spec fn files_after(
    files: Map<Seq<char>, (String, usize)>,
    request: IPCRequest,
) -> Map<Seq<char>, (String, usize)> {
    match request {
        IPCRequest::AddFile { key, path, chunks } => {
            if files.contains_key(key@) {
                files
            } else {
                files.insert(key@, (path, chunks))
            }
        },
        IPCRequest::RemoveFile { key } => files.remove(key@),
        IPCRequest::RemoveAllFiles => Map::empty(),
        _ => files,
    }
}

/// The message that refuses to add a key that is already served.
pub open spec fn already_served_message(path: Seq<char>, key: Seq<char>) -> Seq<char> {
    "File already exists: "@ + path + " (key: "@ + key + ")"@
}

/// The message that refuses to remove a key that is not served.
pub open spec fn not_served_message(key: Seq<char>) -> Seq<char> {
    "File does not exist: "@ + key
}

/// Whether `response` is the daemon's answer to `request`, given the files it
/// served and its session id when the request came.
pub open spec fn is_ipc_answer(
    files: Map<Seq<char>, (String, usize)>,
    session_id: String,
    request: IPCRequest,
    response: IPCResponse,
) -> bool {
    match request {
        IPCRequest::Ping => response == IPCResponse::Pong(session_id),
        IPCRequest::AddFile { key, path, chunks } => {
            if files.contains_key(key@) {
                response matches IPCResponse::Error(m) && m@ == already_served_message(path@, key@)
            } else {
                response is Success
            }
        },
        IPCRequest::RemoveFile { key } => {
            if !files.contains_key(key@) {
                response matches IPCResponse::Error(m) && m@ == not_served_message(key@)
            } else if files.remove(key@) == Map::<Seq<char>, (String, usize)>::empty() {
                response is RemovedLastFile
            } else {
                response is Success
            }
        },
        IPCRequest::RemoveAllFiles => response is RemovedLastFile,
        IPCRequest::ListFiles => response matches IPCResponse::Files(t) && t@ == files,
    }
}

impl DaemonState {
    /// The state of a daemon that starts out serving one file.
    pub fn new(key: String, file: String, chunks: usize, session_id: String) -> (s: Self)
        ensures
            s.served_files@ == Map::<Seq<char>, (String, usize)>::empty().insert(
                key@,
                (file, chunks),
            ),
            s.session_id == session_id,
    {
        let mut served_files = FileTable::new();
        served_files.insert(key, (file, chunks));
        DaemonState { served_files, session_id }
    }
}

/// Answers a request from the local front end, updating the table of served files.
pub fn handle_ipc_request(request: IPCRequest, state: &mut DaemonState) -> (response: IPCResponse)
    ensures
        final(state).session_id == old(state).session_id,
        final(state).served_files@ == files_after(old(state).served_files@, request),
        is_ipc_answer(old(state).served_files@, old(state).session_id, request, response),
{
    match request {
        IPCRequest::AddFile { key, path, chunks } => {
            if state.served_files.contains_key(key.as_str()) {
                let mut message = String::from_str("File already exists: ");
                message.append(path.as_str());
                message.append(" (key: ");
                message.append(key.as_str());
                message.append(")");
                return IPCResponse::Error(message);
            }
            state.served_files.insert(key, (path, chunks));
            IPCResponse::Success
        },
        IPCRequest::RemoveFile { key } => {
            if state.served_files.contains_key(key.as_str()) {
                state.served_files.remove(key.as_str());
                if state.served_files.is_empty() {
                    IPCResponse::RemovedLastFile
                } else {
                    IPCResponse::Success
                }
            } else {
                proof {
                    assert(state.served_files@.remove(key@) =~= state.served_files@);
                }
                let mut message = String::from_str("File does not exist: ");
                message.append(key.as_str());
                IPCResponse::Error(message)
            }
        },
        IPCRequest::ListFiles => IPCResponse::Files(state.served_files.clone_table()),
        IPCRequest::RemoveAllFiles => {
            state.served_files.clear();
            IPCResponse::RemovedLastFile
        },
        IPCRequest::Ping => IPCResponse::Pong(state.session_id.clone()),
    }
}

/// Whether the daemon stops serving the local channel after giving this answer:
/// it does once its last file is gone.
pub fn closes_service(response: &IPCResponse) -> (r: bool)
    ensures
        r == (response is RemovedLastFile),
{
    match response {
        IPCResponse::RemovedLastFile => true,
        _ => false,
    }
}

/// What the daemon does about a request from the network: answer at once, or
/// first read one chunk of a served file.
pub enum TcpAction {
    Respond(TCPResponse),
    ReadChunk { path: String, chunk_index: usize },
}

/// Whether `action` is how a daemon that serves `files` in session
/// `session_id` deals with `packet`.
pub open spec fn is_tcp_action(
    files: Map<Seq<char>, (String, usize)>,
    session_id: String,
    packet: TCPRequest,
    action: TcpAction,
) -> bool {
    match packet {
        TCPRequest::Discovery => action matches TcpAction::Respond(
            TCPResponse::Discovery { session_id: s, files: t },
        ) && s == session_id && t@ == files,
        TCPRequest::Download(key, index) => {
            if !files.contains_key(key@) {
                action matches TcpAction::Respond(TCPResponse::Error(m)) && m@ == "Key not found"@
            } else if index >= files[key@].1 {
                action matches TcpAction::Respond(TCPResponse::Error(m)) && m@
                    == "Chunk index out of range"@
            } else {
                action == TcpAction::ReadChunk { path: files[key@].0, chunk_index: index }
            }
        },
    }
}

/// Decides how to answer a request from the network.
pub fn handle_tcp_request(packet: TCPRequest, state: &DaemonState) -> (action: TcpAction)
    ensures
        is_tcp_action(state.served_files@, state.session_id, packet, action),
{
    match packet {
        TCPRequest::Discovery => TcpAction::Respond(
            TCPResponse::Discovery {
                session_id: state.session_id.clone(),
                files: state.served_files.clone_table(),
            },
        ),
        TCPRequest::Download(key, chunk_index) => {
            let entry = state.served_files.get(key.as_str());
            match entry {
                None => TcpAction::Respond(TCPResponse::Error(String::from_str("Key not found"))),
                Some(e) => {
                    if chunk_index >= e.1 {
                        TcpAction::Respond(
                            TCPResponse::Error(String::from_str("Chunk index out of range")),
                        )
                    } else {
                        TcpAction::ReadChunk { path: e.0.clone(), chunk_index }
                    }
                },
            }
        },
    }
}

/// The answer to a download once the chunk has been read, or has failed to be.
pub fn chunk_response(read: Option<Vec<u8>>) -> (response: TCPResponse)
    ensures
        match read {
            Some(bytes) => response == TCPResponse::FileChunk(bytes),
            None => response matches TCPResponse::Error(m) && m@ == "Failed to read file"@,
        },
{
    match read {
        Some(bytes) => TCPResponse::FileChunk(bytes),
        None => TCPResponse::Error(String::from_str("Failed to read file")),
    }
}

/// The number of whole or partial chunks in a file of `len` bytes, saturated at `usize::MAX`.
pub open spec fn spec_chunk_count(len: u64) -> int {
    let c = (len + CHUNK_SIZE - 1) / CHUNK_SIZE as int;
    if c > usize::MAX { usize::MAX as int } else { c }
}

/// The number of 1 MiB chunks in a file of `len` bytes.
pub fn chunk_count(len: u64) -> (n: usize)
    ensures
        n == spec_chunk_count(len),
{
    let whole = len / CHUNK_SIZE;
    let c = if len % CHUNK_SIZE == 0 { whole } else { whole + 1 };
    assert(c == (len + CHUNK_SIZE - 1) / CHUNK_SIZE as int) by (nonlinear_arith)
        requires
            whole == len / CHUNK_SIZE,
            len % CHUNK_SIZE == 0 ==> c == whole,
            len % CHUNK_SIZE != 0 ==> c == whole + 1,
    {
    }
    if c > usize::MAX as u64 {
        usize::MAX
    } else {
        c as usize
    }
}

/// The offset of the first byte of chunk `n`.
pub fn chunk_offset(n: usize) -> (offset: u64)
    requires
        n * CHUNK_SIZE <= usize::MAX,
    ensures
        offset == n * CHUNK_SIZE,
{
    (n * 1048576) as u64
}

/// A file added under a key that was not served is listed under that key,
/// with the path and chunk count it was added with, beside every file served before.
pub proof fn law_added_file_is_listed(
    files: Map<Seq<char>, (String, usize)>,
    key: String,
    path: String,
    chunks: usize,
)
    requires
        !files.contains_key(key@),
    ensures
        files_after(files, (IPCRequest::AddFile { key, path, chunks })).contains_key(key@),
        files_after(files, (IPCRequest::AddFile { key, path, chunks }))[key@] == (path, chunks),
        forall|q: Seq<char>|
            #[trigger] files.contains_key(q) ==> files_after(
                files,
                (IPCRequest::AddFile { key, path, chunks }),
            ).contains_key(q),
{
}

/// Removing a key right after adding it, where it was not served before,
/// gives back the table as it was.
pub proof fn law_remove_undoes_add(
    files: Map<Seq<char>, (String, usize)>,
    key: String,
    path: String,
    chunks: usize,
    same_key: String,
)
    requires
        !files.contains_key(key@),
        same_key@ == key@,
    ensures
        files_after(
            files_after(files, (IPCRequest::AddFile { key, path, chunks })),
            (IPCRequest::RemoveFile { key: same_key }),
        ) == files,
{
    assert(files.insert(key@, (path, chunks)).remove(key@) =~= files);
}

/// A refused request leaves the table as it was: adding a key that is
/// already served, and removing a key that is not.
pub proof fn law_refusal_changes_nothing(
    files: Map<Seq<char>, (String, usize)>,
    session_id: String,
    request: IPCRequest,
    response: IPCResponse,
)
    requires
        is_ipc_answer(files, session_id, request, response),
        response is Error,
    ensures
        files_after(files, request) == files,
{
    if let IPCRequest::RemoveFile { key } = request {
        assert(files.remove(key@) =~= files);
    }
}

/// The daemon answers `RemovedLastFile`, upon which it shuts down, exactly
/// when a removal leaves it serving nothing.
pub proof fn law_shutdown_only_when_empty(
    files: Map<Seq<char>, (String, usize)>,
    session_id: String,
    request: IPCRequest,
    response: IPCResponse,
)
    requires
        is_ipc_answer(files, session_id, request, response),
    ensures
        response is RemovedLastFile ==> files_after(files, request) == Map::<
            Seq<char>,
            (String, usize),
        >::empty(),
        (request is RemoveFile || request is RemoveAllFiles) && files_after(files, request)
            == Map::<Seq<char>, (String, usize)>::empty() && !(response is Error)
            ==> response is RemovedLastFile,
{
}

/// Only requests that add or remove files change the table; a ping or a
/// listing leaves it as it was and answers with the session id or the table.
pub proof fn law_queries_change_nothing(
    files: Map<Seq<char>, (String, usize)>,
    session_id: String,
    request: IPCRequest,
    response: IPCResponse,
)
    requires
        is_ipc_answer(files, session_id, request, response),
        request is Ping || request is ListFiles,
    ensures
        files_after(files, request) == files,
        request is Ping ==> response == IPCResponse::Pong(session_id),
        request is ListFiles ==> (response matches IPCResponse::Files(t) && t@ == files),
{
}

/// Chunk `i` of a file of `len` bytes exists (its first byte lies in the
/// file) exactly when `i` is below the file's chunk count.
pub proof fn law_chunk_index_in_range(len: u64, i: int)
    requires
        0 <= i,
        (len + CHUNK_SIZE - 1) / CHUNK_SIZE as int <= usize::MAX,
    ensures
        i < spec_chunk_count(len) <==> i * CHUNK_SIZE < len,
{
    let c = (len + CHUNK_SIZE - 1) / CHUNK_SIZE as int;
    assert(i < c <==> i * 1048576 < len) by (nonlinear_arith)
        requires
            c == (len + 1048576 - 1) / 1048576,
            0 <= i,
            0 <= len,
    ;
}

/// A file that a daemon was asked to serve can then be downloaded: every
/// chunk below its chunk count is read from the path it was added with.
pub proof fn law_added_file_is_downloadable(
    files: Map<Seq<char>, (String, usize)>,
    session_id: String,
    key: String,
    path: String,
    chunks: usize,
    asked_key: String,
    index: usize,
    action: TcpAction,
)
    requires
        !files.contains_key(key@),
        asked_key@ == key@,
        index < chunks,
        is_tcp_action(
            files_after(files, (IPCRequest::AddFile { key, path, chunks })),
            session_id,
            TCPRequest::Download(asked_key, index),
            action,
        ),
    ensures
        action == (TcpAction::ReadChunk { path, chunk_index: index }),
{
}

/// Once a key is removed, downloads under it are refused with "Key not found".
pub proof fn law_removed_file_is_not_downloadable(
    files: Map<Seq<char>, (String, usize)>,
    session_id: String,
    key: String,
    asked_key: String,
    index: usize,
    action: TcpAction,
)
    requires
        asked_key@ == key@,
        is_tcp_action(
            files_after(files, (IPCRequest::RemoveFile { key })),
            session_id,
            TCPRequest::Download(asked_key, index),
            action,
        ),
    ensures
        action matches TcpAction::Respond(TCPResponse::Error(m)) && m@ == "Key not found"@,
{
}

/// A discovery probe and a local listing report the same files.
pub proof fn law_discovery_matches_listing(
    files: Map<Seq<char>, (String, usize)>,
    session_id: String,
    action: TcpAction,
    response: IPCResponse,
)
    requires
        is_tcp_action(files, session_id, TCPRequest::Discovery, action),
        is_ipc_answer(files, session_id, IPCRequest::ListFiles, response),
    ensures
        action matches TcpAction::Respond(TCPResponse::Discovery { session_id: s, files: t })
            && response matches IPCResponse::Files(l) && t@ == l@ && s == session_id,
{
}

/// Stopping every file empties the table, whatever it held, and is answered
/// with `RemovedLastFile`, upon which the daemon shuts down.
pub proof fn law_remove_all_clears_everything(
    files: Map<Seq<char>, (String, usize)>,
    session_id: String,
    response: IPCResponse,
)
    ensures
        forall|q: Seq<char>| !(#[trigger] files_after(files, IPCRequest::RemoveAllFiles).contains_key(q)),
        is_ipc_answer(files, session_id, IPCRequest::RemoveAllFiles, response) ==> response is RemovedLastFile,
{
}

/// Adding a key that is not served serves exactly the old files and the new
/// one, leaves every old entry as it was, and is answered with `Success`.
pub proof fn law_add_new_key(
    files: Map<Seq<char>, (String, usize)>,
    session_id: String,
    key: String,
    path: String,
    chunks: usize,
    response: IPCResponse,
)
    requires
        !files.contains_key(key@),
    ensures
        forall|q: Seq<char>|
            #[trigger] files_after(files, (IPCRequest::AddFile { key, path, chunks })).contains_key(q)
                <==> (files.contains_key(q) || q == key@),
        forall|q: Seq<char>|
            #[trigger] files.contains_key(q) ==> files_after(
                files,
                (IPCRequest::AddFile { key, path, chunks }),
            )[q] == files[q],
        files_after(files, (IPCRequest::AddFile { key, path, chunks }))[key@] == (path, chunks),
        is_ipc_answer(files, session_id, (IPCRequest::AddFile { key, path, chunks }), response)
            ==> response is Success,
{
}

/// Adding a key that is already served changes nothing and is refused with a
/// message naming the path and the key.
pub proof fn law_add_existing_key(
    files: Map<Seq<char>, (String, usize)>,
    session_id: String,
    key: String,
    path: String,
    chunks: usize,
    response: IPCResponse,
)
    requires
        files.contains_key(key@),
    ensures
        forall|q: Seq<char>|
            #[trigger] files_after(files, (IPCRequest::AddFile { key, path, chunks })).contains_key(q)
                <==> files.contains_key(q),
        forall|q: Seq<char>|
            #[trigger] files.contains_key(q) ==> files_after(
                files,
                (IPCRequest::AddFile { key, path, chunks }),
            )[q] == files[q],
        is_ipc_answer(files, session_id, (IPCRequest::AddFile { key, path, chunks }), response)
            ==> (response matches IPCResponse::Error(m) && m@ == "File already exists: "@ + path@
            + " (key: "@ + key@ + ")"@),
{
}

/// Removing a served key serves exactly the other files, each as it was; the
/// answer is `RemovedLastFile` when no other file is left and `Success` otherwise.
pub proof fn law_remove_served_key(
    files: Map<Seq<char>, (String, usize)>,
    session_id: String,
    key: String,
    response: IPCResponse,
)
    requires
        files.contains_key(key@),
    ensures
        forall|q: Seq<char>|
            #[trigger] files_after(files, (IPCRequest::RemoveFile { key })).contains_key(q) <==> (
            files.contains_key(q) && q != key@),
        forall|q: Seq<char>|
            #[trigger] files.contains_key(q) && q != key@ ==> files_after(
                files,
                (IPCRequest::RemoveFile { key }),
            )[q] == files[q],
        is_ipc_answer(files, session_id, (IPCRequest::RemoveFile { key }), response) ==> (
        response is RemovedLastFile <==> forall|q: Seq<char>| #[trigger]
            files.contains_key(q) ==> q == key@),
        is_ipc_answer(files, session_id, (IPCRequest::RemoveFile { key }), response) ==> (
        response is RemovedLastFile || response is Success),
{
    let after = files.remove(key@);
    if is_ipc_answer(files, session_id, (IPCRequest::RemoveFile { key }), response) {
        if forall|q: Seq<char>| #[trigger] files.contains_key(q) ==> q == key@ {
            assert(after =~= Map::<Seq<char>, (String, usize)>::empty());
        } else {
            let q = choose|q: Seq<char>| #[trigger] files.contains_key(q) && q != key@;
            assert(after.contains_key(q));
            assert(after != Map::<Seq<char>, (String, usize)>::empty());
        }
    }
}

/// Removing a key that is not served changes nothing and is refused with a
/// message naming the key.
pub proof fn law_remove_unserved_key(
    files: Map<Seq<char>, (String, usize)>,
    session_id: String,
    key: String,
    response: IPCResponse,
)
    requires
        !files.contains_key(key@),
    ensures
        forall|q: Seq<char>|
            #[trigger] files_after(files, (IPCRequest::RemoveFile { key })).contains_key(q)
                <==> files.contains_key(q),
        forall|q: Seq<char>|
            #[trigger] files.contains_key(q) ==> files_after(files, (IPCRequest::RemoveFile { key }))[q]
                == files[q],
        is_ipc_answer(files, session_id, (IPCRequest::RemoveFile { key }), response) ==> (
        response matches IPCResponse::Error(m) && m@ == "File does not exist: "@ + key@),
{
}

} // verus!
