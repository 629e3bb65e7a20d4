use quic_chat::client::{is_answer, ClientSession, ClientState, ClientStep};
use quic_chat::frame::{frame, FrameBuffer};
use quic_chat::message::{ClientToServer, ProtocolError, ServerToClient};
use quic_chat::server::{handle_request, reply_frame, ServerSession, ServerState};
use quic_chat::store::Store;
use quic_chat::tls::SkipServerVerification;

fn payload_of(frame_bytes: &[u8]) -> Vec<u8> {
    let mut buf = FrameBuffer::new();
    buf.feed(frame_bytes);
    buf.next_frame().unwrap().unwrap()
}

/// One whole connection between a fresh client session and a fresh server
/// session sharing `store`.
fn exchange(store: &mut Store, request: ClientToServer) -> Result<ServerToClient, ProtocolError> {
    let mut server = ServerSession::new();
    let mut client = ClientSession::new(request);
    let hello = server.hello()?;
    let request_frame = match client.on_frame(&payload_of(&hello))? {
        ClientStep::Send(f) => f,
        ClientStep::Finished(_) => panic!("finished before sending"),
    };
    let reply = server.on_request(store, &payload_of(&request_frame))?;
    assert_eq!(server.state, ServerState::Closed);
    match client.on_frame(&payload_of(&reply))? {
        ClientStep::Finished(r) => {
            assert_eq!(client.state, ClientState::Done);
            Ok(r)
        }
        ClientStep::Send(_) => panic!("asked to send twice"),
    }
}

#[test]
fn board_scenario() {
    let mut store = Store::new();
    let post = ClientToServer::Post { content: "hello".to_string() };
    assert_eq!(exchange(&mut store, post), Ok(ServerToClient::OK));
    assert_eq!(
        exchange(&mut store, ClientToServer::GetAll),
        Ok(ServerToClient::Messages(vec!["hello".to_string()]))
    );
    assert_eq!(exchange(&mut store, ClientToServer::GetLen), Ok(ServerToClient::MessagesLen(1)));
    assert_eq!(exchange(&mut store, ClientToServer::Clear), Ok(ServerToClient::OK));
    assert_eq!(
        exchange(&mut store, ClientToServer::GetAll),
        Ok(ServerToClient::Messages(vec![]))
    );
}

#[test]
fn client_rejects_first_frame_other_than_hello() {
    for first in [
        ServerToClient::OK,
        ServerToClient::MessagesLen(0),
        ServerToClient::Messages(vec!["x".to_string()]),
    ] {
        let mut client = ClientSession::new(ClientToServer::GetLen);
        let r = client.on_frame(&first.encode());
        assert!(matches!(r, Err(ProtocolError::ProtocolViolation)));
        assert_eq!(client.state, ClientState::Failed);
    }
}

#[test]
fn client_rejects_malformed_first_frame() {
    let mut client = ClientSession::new(ClientToServer::GetAll);
    let r = client.on_frame(&[0xee]);
    assert!(matches!(r, Err(ProtocolError::MalformedMessage)));
    assert_eq!(client.state, ClientState::Failed);
}

#[test]
fn client_sends_framed_request_after_hello() {
    let mut client = ClientSession::new(ClientToServer::Clear);
    match client.on_frame(&ServerToClient::Hello.encode()) {
        Ok(ClientStep::Send(f)) => assert_eq!(f, frame(&[0x04]).unwrap()),
        _ => panic!("expected a request to send"),
    }
    assert_eq!(client.state, ClientState::AwaitingReply);
}

#[test]
fn client_rejects_mismatched_reply() {
    let mut client = ClientSession::new(ClientToServer::GetAll);
    assert!(client.on_frame(&ServerToClient::Hello.encode()).is_ok());
    let r = client.on_frame(&ServerToClient::OK.encode());
    assert!(matches!(r, Err(ProtocolError::ProtocolViolation)));
    assert_eq!(client.state, ClientState::Failed);
}

#[test]
fn client_rejects_second_hello_as_reply() {
    let mut client = ClientSession::new(ClientToServer::Post { content: "p".to_string() });
    assert!(client.on_frame(&ServerToClient::Hello.encode()).is_ok());
    let r = client.on_frame(&ServerToClient::Hello.encode());
    assert!(matches!(r, Err(ProtocolError::ProtocolViolation)));
}

#[test]
fn client_rejects_frames_after_done() {
    let mut client = ClientSession::new(ClientToServer::GetLen);
    assert!(client.on_frame(&ServerToClient::Hello.encode()).is_ok());
    assert!(client.on_frame(&ServerToClient::MessagesLen(3).encode()).is_ok());
    let r = client.on_frame(&ServerToClient::OK.encode());
    assert!(matches!(r, Err(ProtocolError::ProtocolViolation)));
}

#[test]
fn server_sends_hello_once() {
    let mut server = ServerSession::new();
    assert_eq!(server.hello(), Ok(frame(&[0x11]).unwrap()));
    assert_eq!(server.state, ServerState::AwaitingRequest);
    assert_eq!(server.hello(), Err(ProtocolError::ProtocolViolation));
    assert_eq!(server.state, ServerState::Closed);
}

#[test]
fn server_rejects_request_before_hello() {
    let mut store = Store::new();
    let mut server = ServerSession::new();
    let r = server.on_request(&mut store, &[0x04]);
    assert_eq!(r, Err(ProtocolError::ProtocolViolation));
    assert_eq!(server.state, ServerState::Closed);
}

#[test]
fn server_leaves_store_alone_on_malformed_request() {
    let mut store = Store::new();
    store.append("kept".to_string());
    let mut server = ServerSession::new();
    server.hello().unwrap();
    assert_eq!(server.on_request(&mut store, &[0x04, 0x00]), Err(ProtocolError::MalformedMessage));
    assert_eq!(store.snapshot(), vec!["kept".to_string()]);
    assert_eq!(server.state, ServerState::Closed);
}

#[test]
fn server_refuses_reply_over_frame_limit() {
    let mut store = Store::new();
    let big = "x".repeat(600_000);
    store.append(big.clone());
    store.append(big);
    let mut server = ServerSession::new();
    server.hello().unwrap();
    assert_eq!(server.on_request(&mut store, &[0x01]), Err(ProtocolError::FrameTooLarge));
    assert_eq!(store.length(), 2);
}

#[test]
fn handle_request_applies_each_kind() {
    let mut store = Store::new();
    let r = handle_request(&mut store, ClientToServer::Post { content: "a".to_string() });
    assert_eq!(r, ServerToClient::OK);
    assert_eq!(handle_request(&mut store, ClientToServer::GetLen), ServerToClient::MessagesLen(1));
    assert_eq!(
        handle_request(&mut store, ClientToServer::GetAll),
        ServerToClient::Messages(vec!["a".to_string()])
    );
    assert_eq!(handle_request(&mut store, ClientToServer::Clear), ServerToClient::OK);
    assert_eq!(store.length(), 0);
}

#[test]
fn reply_frame_wraps_encoding() {
    assert_eq!(
        reply_frame(&ServerToClient::MessagesLen(1)),
        Ok(vec![9, 0, 0, 0, 0, 0, 0, 0, 0x13, 1, 0, 0, 0, 0, 0, 0, 0])
    );
}

#[test]
fn is_answer_pairs_requests_with_replies() {
    assert!(is_answer(&ClientToServer::GetAll, &ServerToClient::Messages(vec![])));
    assert!(!is_answer(&ClientToServer::GetAll, &ServerToClient::OK));
    assert!(is_answer(&ClientToServer::GetLen, &ServerToClient::MessagesLen(2)));
    assert!(!is_answer(&ClientToServer::GetLen, &ServerToClient::Hello));
    assert!(is_answer(&ClientToServer::Clear, &ServerToClient::OK));
    assert!(!is_answer(&ClientToServer::Post { content: String::new() }, &ServerToClient::Hello));
}

#[test]
fn skip_verification_handle() {
    let v = SkipServerVerification::new();
    assert_eq!(*v, SkipServerVerification);
}
