use websocket_server::connection::{ClientState, Interest, ProtocolError, WebSocketClient};
use websocket_server::frame::{decode, OpCode};
use websocket_server::handler::Placeholder;
use websocket_server::server::{Dispatch, ReadOutcome, Readiness, WebSocketServer, WriteOutcome, SERVER};

const UPGRADE: &[u8] = b"GET /chat HTTP/1.1\r\nHost: localhost:10000\r\nUpgrade: websocket\r\nConnection: Upgrade\r\nSec-WebSocket-Key: x3JJHMbDL1EzLkh9GBhXDw==\r\nSec-WebSocket-Version: 13\r\n\r\n";

const READING: Interest = Interest { readable: true, writable: false, hup: true };
const WRITING: Interest = Interest { readable: false, writable: true, hup: true };

fn readable() -> Readiness {
    Readiness { readable: true, writable: false, hup: false }
}

fn writable() -> Readiness {
    Readiness { readable: false, writable: true, hup: false }
}

fn hup() -> Readiness {
    Readiness { readable: true, writable: true, hup: true }
}

fn masked_text(payload: &[u8], key: [u8; 4]) -> Vec<u8> {
    let mut out = vec![0x81, 0x80 | payload.len() as u8];
    out.extend_from_slice(&key);
    for (i, b) in payload.iter().enumerate() {
        out.push(b ^ key[i % 4]);
    }
    out
}

fn connected_server() -> (WebSocketServer, u64) {
    let mut s = WebSocketServer::new();
    assert_eq!(s.dispatch(SERVER, readable()), Dispatch::Accept);
    let t = s.accept().unwrap();
    assert_eq!(s.dispatch(t, readable()), Dispatch::Read);
    assert_eq!(s.on_readable(t, UPGRADE, &Placeholder), ReadOutcome::Rearm(WRITING));
    match s.on_writable(t) {
        WriteOutcome::Send(_, i) => assert_eq!(i, READING),
        _ => panic!("handshake not written"),
    }
    (s, t)
}

#[test]
fn end_to_end_upgrade_then_text_frame() {
    let mut s = WebSocketServer::new();
    assert_eq!(s.dispatch(SERVER, readable()), Dispatch::Accept);
    let t = s.accept().unwrap();
    assert_eq!(t, 1);
    assert_eq!(s.on_readable(t, UPGRADE, &Placeholder), ReadOutcome::Rearm(WRITING));
    assert!(matches!(s.clients[&t].state, ClientState::HandshakeResponse));
    assert_eq!(s.dispatch(t, writable()), Dispatch::Write);
    let response = match s.on_writable(t) {
        WriteOutcome::Send(bytes, i) => {
            assert_eq!(i, READING);
            bytes
        }
        _ => panic!("handshake not written"),
    };
    let text = String::from_utf8(response).unwrap();
    assert!(text.contains("Sec-WebSocket-Accept: HSmrc0sMlYUkAGmm5OPpG2HaGWk=\r\n"));
    assert_eq!(
        text,
        "HTTP/1.1 101 Switching Protocols\r\nConnection: Upgrade\r\nSec-WebSocket-Accept: HSmrc0sMlYUkAGmm5OPpG2HaGWk=\r\nUpgrade: websocket\r\n\r\n"
    );
    assert!(matches!(s.clients[&t].state, ClientState::Connected));

    let frame = masked_text(b"hello", [0x11, 0x22, 0x33, 0x44]);
    assert_eq!(s.on_readable(t, &frame, &Placeholder), ReadOutcome::Rearm(WRITING));
    assert_eq!(s.clients[&t].outgoing.len(), 1);
    let sent = match s.on_writable(t) {
        WriteOutcome::Send(bytes, i) => {
            assert_eq!(i, READING);
            bytes
        }
        _ => panic!("frames not written"),
    };
    let (reply, used) = decode(&sent).unwrap().unwrap();
    assert_eq!(used, sent.len());
    assert_eq!(reply.opcode, OpCode::Text);
    assert!(reply.fin);
    assert_eq!(reply.payload, b"Hi there!".to_vec());
    assert!(s.clients[&t].outgoing.is_empty());
}

#[test]
fn upgrade_request_split_across_reads() {
    let mut s = WebSocketServer::new();
    let t = s.accept().unwrap();
    for chunk in UPGRADE.chunks(7) {
        s.on_readable(t, chunk, &Placeholder);
    }
    assert!(matches!(s.clients[&t].state, ClientState::HandshakeResponse));
    assert_eq!(s.clients[&t].interest, WRITING);
}

#[test]
fn reply_turns_interest_to_writing_until_drained() {
    let (mut s, t) = connected_server();
    assert_eq!(s.clients[&t].interest, READING);
    let two = [masked_text(b"a", [1, 2, 3, 4]), masked_text(b"b", [4, 3, 2, 1])].concat();
    assert_eq!(s.on_readable(t, &two, &Placeholder), ReadOutcome::Rearm(WRITING));
    assert_eq!(s.clients[&t].outgoing.len(), 2);
    // a further read keeps writing while the queue is not empty
    assert_eq!(s.on_readable(t, &[], &Placeholder), ReadOutcome::Rearm(WRITING));
    match s.on_writable(t) {
        WriteOutcome::Send(bytes, i) => {
            assert_eq!(i, READING);
            let (f1, n1) = decode(&bytes).unwrap().unwrap();
            let (f2, n2) = decode(&bytes[n1..]).unwrap().unwrap();
            assert_eq!(n1 + n2, bytes.len());
            assert_eq!(f1.payload, b"Hi there!".to_vec());
            assert_eq!(f2.payload, b"Hi there!".to_vec());
        }
        _ => panic!("frames not written"),
    }
}

#[test]
fn non_text_frame_gets_no_reply() {
    let (mut s, t) = connected_server();
    let ping = [0x89u8, 0x80, 1, 2, 3, 4];
    assert_eq!(s.on_readable(t, &ping, &Placeholder), ReadOutcome::Rearm(READING));
    assert!(s.clients[&t].outgoing.is_empty());
}

#[test]
fn partial_frame_is_kept_for_next_read() {
    let (mut s, t) = connected_server();
    let frame = masked_text(b"hello", [9, 8, 7, 6]);
    assert_eq!(s.on_readable(t, &frame[..4], &Placeholder), ReadOutcome::Rearm(READING));
    assert_eq!(s.clients[&t].inbound, frame[..4].to_vec());
    assert_eq!(s.on_readable(t, &frame[4..], &Placeholder), ReadOutcome::Rearm(WRITING));
    assert!(s.clients[&t].inbound.is_empty());
}

#[test]
fn frame_sent_with_the_request_is_kept() {
    let mut s = WebSocketServer::new();
    let t = s.accept().unwrap();
    let frame = masked_text(b"hello", [1, 1, 1, 1]);
    let data = [UPGRADE, &frame[..]].concat();
    assert_eq!(s.on_readable(t, &data, &Placeholder), ReadOutcome::Rearm(WRITING));
    assert_eq!(s.clients[&t].inbound, frame);
}

#[test]
fn malformed_frame_drops_connection() {
    let (mut s, t) = connected_server();
    assert_eq!(s.on_readable(t, &[0x83, 0x80, 0, 0, 0, 0], &Placeholder), ReadOutcome::Dropped);
    assert!(!s.clients.contains_key(&t));
}

#[test]
fn missing_key_drops_connection() {
    let mut s = WebSocketServer::new();
    let t = s.accept().unwrap();
    let req = b"GET / HTTP/1.1\r\nHost: x\r\nUpgrade: websocket\r\n\r\n";
    assert_eq!(s.on_readable(t, req, &Placeholder), ReadOutcome::Rearm(WRITING));
    assert!(matches!(s.on_writable(t), WriteOutcome::Dropped));
    assert!(s.clients.is_empty());
}

#[test]
fn write_handshake_reports_missing_key() {
    let mut c = WebSocketClient::new();
    c.read(b"GET / HTTP/1.1\r\n\r\n", &Placeholder).unwrap();
    assert!(matches!(c.state, ClientState::HandshakeResponse));
    assert_eq!(c.write_handshake(), Err(ProtocolError::MissingKey));
    assert!(matches!(c.state, ClientState::HandshakeResponse));
}

#[test]
fn write_before_handshake_sends_nothing() {
    let mut c = WebSocketClient::new();
    assert_eq!(c.write(), Ok(Vec::new()));
    assert!(matches!(c.state, ClientState::AwaitingHandshake(_)));
    assert_eq!(c.interest, READING);
}

#[test]
fn hang_up_removes_exactly_one_entry() {
    let mut s = WebSocketServer::new();
    let a = s.accept().unwrap();
    let b = s.accept().unwrap();
    assert_eq!(b, a + 1);
    assert_eq!(s.clients.len(), 2);
    assert_eq!(s.dispatch(a, hup()), Dispatch::HungUp);
    assert_eq!(s.clients.len(), 1);
    assert!(s.clients.contains_key(&b));
    assert_eq!(s.dispatch(a, hup()), Dispatch::Ignore);
    assert_eq!(s.dispatch(a, readable()), Dispatch::Ignore);
    assert_eq!(s.on_readable(a, UPGRADE, &Placeholder), ReadOutcome::Unknown);
    assert!(matches!(s.on_writable(a), WriteOutcome::Unknown));
    assert_eq!(s.clients.len(), 1);
    let c = s.accept().unwrap();
    assert!(c > b);
}

#[test]
fn listener_events() {
    let mut s = WebSocketServer::new();
    assert_eq!(s.dispatch(SERVER, readable()), Dispatch::Accept);
    assert_eq!(s.dispatch(SERVER, writable()), Dispatch::Ignore);
    assert!(s.clients.is_empty());
}

#[test]
fn identifiers_run_out() {
    let mut s = WebSocketServer::new();
    s.token_counter = u64::MAX - 1;
    assert_eq!(s.accept(), Some(u64::MAX));
    assert_eq!(s.accept(), None);
    assert_eq!(s.clients.len(), 1);
}

