use localpost::daemon::{
    chunk_count, chunk_offset, chunk_response, closes_service, handle_ipc_request, handle_tcp_request, DaemonState,
    TcpAction,
};
use localpost::ipc::{FileTable, IPCRequest, IPCResponse};
use localpost::tcp::{TCPRequest, TCPResponse};

fn state() -> DaemonState {
    DaemonState::new(
        "apple-drum-honey".to_string(),
        "/srv/a.txt".to_string(),
        3,
        "cheese-eerie-gloom".to_string(),
    )
}

fn table_keys(t: &FileTable) -> Vec<String> {
    (0..t.len()).map(|i| t.key_at(i).clone()).collect()
}

#[test]
fn new_state_serves_one_file() {
    let s = state();
    assert_eq!(s.session_id, "cheese-eerie-gloom");
    assert_eq!(table_keys(&s.served_files), vec!["apple-drum-honey"]);
    assert_eq!(
        s.served_files.get("apple-drum-honey"),
        Some(&("/srv/a.txt".to_string(), 3))
    );
}

#[test]
fn add_file_then_list() {
    let mut s = state();
    let r = handle_ipc_request(
        IPCRequest::AddFile { key: "bounty-fancy-island".to_string(), path: "/srv/b".to_string(), chunks: 1 },
        &mut s,
    );
    assert!(matches!(r, IPCResponse::Success));
    match handle_ipc_request(IPCRequest::ListFiles, &mut s) {
        IPCResponse::Files(t) => {
            assert_eq!(table_keys(&t), vec!["apple-drum-honey", "bounty-fancy-island"]);
            assert_eq!(t.get("bounty-fancy-island"), Some(&("/srv/b".to_string(), 1)));
        }
        _ => panic!("expected a file listing"),
    }
}

#[test]
fn add_existing_key_is_refused() {
    let mut s = state();
    let r = handle_ipc_request(
        IPCRequest::AddFile { key: "apple-drum-honey".to_string(), path: "/srv/other".to_string(), chunks: 9 },
        &mut s,
    );
    match r {
        IPCResponse::Error(m) => assert_eq!(m, "File already exists: /srv/other (key: apple-drum-honey)"),
        _ => panic!("expected a refusal"),
    }
    assert_eq!(s.served_files.get("apple-drum-honey"), Some(&("/srv/a.txt".to_string(), 3)));
}

#[test]
fn remove_missing_key_is_refused() {
    let mut s = state();
    match handle_ipc_request(IPCRequest::RemoveFile { key: "nope".to_string() }, &mut s) {
        IPCResponse::Error(m) => assert_eq!(m, "File does not exist: nope"),
        _ => panic!("expected a refusal"),
    }
    assert_eq!(s.served_files.len(), 1);
}

#[test]
fn remove_one_of_two_then_last() {
    let mut s = state();
    handle_ipc_request(
        IPCRequest::AddFile { key: "k2".to_string(), path: "/p2".to_string(), chunks: 2 },
        &mut s,
    );
    let r = handle_ipc_request(IPCRequest::RemoveFile { key: "k2".to_string() }, &mut s);
    assert!(matches!(r, IPCResponse::Success));
    let r = handle_ipc_request(IPCRequest::RemoveFile { key: "apple-drum-honey".to_string() }, &mut s);
    assert!(matches!(r, IPCResponse::RemovedLastFile));
    assert!(s.served_files.is_empty());
}

#[test]
fn remove_undoes_add_on_values() {
    let mut s = state();
    let before = table_keys(&s.served_files);
    handle_ipc_request(
        IPCRequest::AddFile { key: "temp".to_string(), path: "/t".to_string(), chunks: 4 },
        &mut s,
    );
    handle_ipc_request(IPCRequest::RemoveFile { key: "temp".to_string() }, &mut s);
    assert_eq!(table_keys(&s.served_files), before);
    assert_eq!(s.served_files.get("apple-drum-honey"), Some(&("/srv/a.txt".to_string(), 3)));
}

#[test]
fn remove_all_files_stops_daemon() {
    let mut s = state();
    let r = handle_ipc_request(IPCRequest::RemoveAllFiles, &mut s);
    assert!(matches!(r, IPCResponse::RemovedLastFile));
    assert!(s.served_files.is_empty());
}

#[test]
fn ping_answers_session_and_keeps_state() {
    let mut s = state();
    match handle_ipc_request(IPCRequest::Ping, &mut s) {
        IPCResponse::Pong(id) => assert_eq!(id, "cheese-eerie-gloom"),
        _ => panic!("expected a pong"),
    }
    assert_eq!(s.session_id, "cheese-eerie-gloom");
    assert_eq!(s.served_files.len(), 1);
}

#[test]
fn tcp_discovery_lists_served_files() {
    let s = state();
    match handle_tcp_request(TCPRequest::Discovery, &s) {
        TcpAction::Respond(TCPResponse::Discovery { session_id, files }) => {
            assert_eq!(session_id, "cheese-eerie-gloom");
            assert_eq!(files.get("apple-drum-honey"), Some(&("/srv/a.txt".to_string(), 3)));
        }
        _ => panic!("expected a discovery answer"),
    }
}

#[test]
fn tcp_download_unknown_key() {
    let s = state();
    match handle_tcp_request(TCPRequest::Download("x".to_string(), 0), &s) {
        TcpAction::Respond(TCPResponse::Error(m)) => assert_eq!(m, "Key not found"),
        _ => panic!("expected an error"),
    }
}

#[test]
fn tcp_download_chunk_out_of_range() {
    let s = state();
    match handle_tcp_request(TCPRequest::Download("apple-drum-honey".to_string(), 3), &s) {
        TcpAction::Respond(TCPResponse::Error(m)) => assert_eq!(m, "Chunk index out of range"),
        _ => panic!("expected an error"),
    }
}

#[test]
fn tcp_download_reads_chunk() {
    let s = state();
    match handle_tcp_request(TCPRequest::Download("apple-drum-honey".to_string(), 2), &s) {
        TcpAction::ReadChunk { path, chunk_index } => {
            assert_eq!(path, "/srv/a.txt");
            assert_eq!(chunk_index, 2);
        }
        _ => panic!("expected a chunk read"),
    }
}

#[test]
fn chunk_answers() {
    match chunk_response(Some(vec![1, 2, 3])) {
        TCPResponse::FileChunk(b) => assert_eq!(b, vec![1, 2, 3]),
        _ => panic!("expected a chunk"),
    }
    match chunk_response(None) {
        TCPResponse::Error(m) => assert_eq!(m, "Failed to read file"),
        _ => panic!("expected an error"),
    }
}

#[test]
fn chunk_arithmetic() {
    assert_eq!(chunk_count(0), 0);
    assert_eq!(chunk_count(1), 1);
    assert_eq!(chunk_count(1048576), 1);
    assert_eq!(chunk_count(1048577), 2);
    assert_eq!(chunk_count(5 * 1048576 - 1), 5);
    assert_eq!(chunk_offset(0), 0);
    assert_eq!(chunk_offset(3), 3 * 1048576);
}

#[test]
fn chunk_count_matches_float_rounding() {
    for len in [0u64, 1, 1048575, 1048576, 1048577, 123456789, 10_000_000_000] {
        let float = (len as f64 / (1024.0 * 1024.0)).ceil() as usize;
        assert_eq!(chunk_count(len), float);
    }
}

#[test]
fn service_closes_on_last_removal_only() {
    assert!(closes_service(&IPCResponse::RemovedLastFile));
    assert!(!closes_service(&IPCResponse::Success));
    assert!(!closes_service(&IPCResponse::Error("x".to_string())));
}

#[test]
fn added_file_is_downloadable() {
    let mut s = state();
    handle_ipc_request(
        IPCRequest::AddFile { key: "new-key-here".to_string(), path: "/srv/new".to_string(), chunks: 2 },
        &mut s,
    );
    for i in 0..2 {
        match handle_tcp_request(TCPRequest::Download("new-key-here".to_string(), i), &s) {
            TcpAction::ReadChunk { path, chunk_index } => {
                assert_eq!(path, "/srv/new");
                assert_eq!(chunk_index, i);
            }
            _ => panic!("expected a chunk read"),
        }
    }
    handle_ipc_request(IPCRequest::RemoveFile { key: "new-key-here".to_string() }, &mut s);
    match handle_tcp_request(TCPRequest::Download("new-key-here".to_string(), 0), &s) {
        TcpAction::Respond(TCPResponse::Error(m)) => assert_eq!(m, "Key not found"),
        _ => panic!("expected an error"),
    }
}
