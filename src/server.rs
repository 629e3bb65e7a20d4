//! The server's side of one connection: send `Hello`, read one request,
//! apply it to the store, send one reply.

use vstd::prelude::*;

use crate::codec::{parse_request, reply_bytes};
use crate::frame::{frame, frame_bytes, MAX_FRAME_LEN};
use crate::message::{ClientToServer, ProtocolError, ReplyModel, RequestModel, ServerToClient};
use crate::store::Store;

verus! {

/// The store after `req` is applied to `s`.
pub open spec fn store_after(s: Seq<Seq<char>>, req: RequestModel) -> Seq<Seq<char>> {
    match req {
        RequestModel::Post(content) => s.push(content),
        RequestModel::Clear => Seq::empty(),
        _ => s,
    }
}

/// The reply to `req` on a store holding `s`.
pub open spec fn reply_to(s: Seq<Seq<char>>, req: RequestModel) -> ReplyModel {
    match req {
        RequestModel::GetAll => ReplyModel::Messages(s),
        RequestModel::GetLen => ReplyModel::MessagesLen(s.len() as usize),
        _ => ReplyModel::OK,
    }
}

/// Applies one request to the store and builds its reply.
pub fn handle_request(store: &mut Store, req: ClientToServer) -> (r: ServerToClient)
    ensures
        final(store)@ == store_after(old(store)@, req@),
        r@ == reply_to(old(store)@, req@),
{
    match req {
        ClientToServer::GetAll => ServerToClient::Messages(store.snapshot()),
        ClientToServer::GetLen => ServerToClient::MessagesLen(store.length()),
        ClientToServer::Post { content } => {
            store.append(content);
            ServerToClient::OK
        },
        ClientToServer::Clear => {
            store.clear();
            ServerToClient::OK
        },
    }
}

/// The frame that carries a reply; `FrameTooLarge` when its encoding
/// exceeds the frame limit.
pub fn reply_frame(reply: &ServerToClient) -> (r: Result<Vec<u8>, ProtocolError>)
    ensures
        reply_bytes(reply@).len() > MAX_FRAME_LEN ==> r == Err::<Vec<u8>, ProtocolError>(
            ProtocolError::FrameTooLarge,
        ),
        reply_bytes(reply@).len() <= MAX_FRAME_LEN ==> (r matches Ok(f) && f@ == frame_bytes(
            reply_bytes(reply@),
        )),
{
    let bytes = reply.encode();
    frame(bytes.as_slice())
}

/// Where a connection stands, seen from the server.
#[derive(Debug, Clone, Copy, PartialEq, Eq, Structural)]
pub enum ServerState {
    Created,
    AwaitingRequest,
    Closed,
}

/// The server's decisions for one connection.
pub struct ServerSession {
    pub state: ServerState,
}

impl ServerSession {
    /// A connection that has just been accepted.
    pub fn new() -> (r: ServerSession)
        ensures
            r.state == ServerState::Created,
    {
        ServerSession { state: ServerState::Created }
    }

    /// The `Hello` frame that opens the exchange. Only a new connection sends
    /// it; anywhere else it is a `ProtocolViolation` and the session closes.
    pub fn hello(&mut self) -> (r: Result<Vec<u8>, ProtocolError>)
        ensures
            old(self).state == ServerState::Created ==> (r matches Ok(f) && f@ == frame_bytes(
                reply_bytes(ReplyModel::Hello),
            ) && final(self).state == ServerState::AwaitingRequest),
            old(self).state != ServerState::Created ==> r == Err::<Vec<u8>, ProtocolError>(
                ProtocolError::ProtocolViolation,
            ) && final(self).state == ServerState::Closed,
    {
        if self.state != ServerState::Created {
            self.state = ServerState::Closed;
            return Err(ProtocolError::ProtocolViolation);
        }
        let r = reply_frame(&ServerToClient::Hello);
        self.state = ServerState::AwaitingRequest;
        r
    }

    /// Handles the payload of the one request frame of the connection: decodes
    /// it, applies it to the store and gives the reply frame to send. The
    /// session is closed afterwards, whatever happened; on an error the store
    /// is left as it was.
    pub fn on_request(&mut self, store: &mut Store, payload: &[u8]) -> (r: Result<
        Vec<u8>,
        ProtocolError,
    >)
        ensures
            final(self).state == ServerState::Closed,
            old(self).state != ServerState::AwaitingRequest ==> r == Err::<Vec<u8>, ProtocolError>(
                ProtocolError::ProtocolViolation,
            ) && final(store)@ == old(store)@,
            old(self).state == ServerState::AwaitingRequest ==> match parse_request(payload@) {
                None => r == Err::<Vec<u8>, ProtocolError>(ProtocolError::MalformedMessage)
                    && final(store)@ == old(store)@,
                Some(req) => {
                    &&& final(store)@ == store_after(old(store)@, req)
                    &&& reply_bytes(reply_to(old(store)@, req)).len() > MAX_FRAME_LEN ==> r
                        == Err::<Vec<u8>, ProtocolError>(ProtocolError::FrameTooLarge)
                    &&& reply_bytes(reply_to(old(store)@, req)).len() <= MAX_FRAME_LEN ==> (
                    r matches Ok(f) && f@ == frame_bytes(reply_bytes(reply_to(old(store)@, req))))
                },
            },
    {
        let expected = self.state == ServerState::AwaitingRequest;
        self.state = ServerState::Closed;
        if !expected {
            return Err(ProtocolError::ProtocolViolation);
        }
        match ClientToServer::decode(payload) {
            Ok(req) => {
                let reply = handle_request(store, req);
                reply_frame(&reply)
            },
            Err(e) => Err(e),
        }
    }
}

/// Clearing twice leaves the store empty after each clear, and the store
/// then reports no messages and a length of zero.
pub proof fn lemma_clear_idempotent(s: Seq<Seq<char>>)
    ensures
        store_after(s, RequestModel::Clear) == Seq::<Seq<char>>::empty(),
        store_after(store_after(s, RequestModel::Clear), RequestModel::Clear) == Seq::<
            Seq<char>,
        >::empty(),
        reply_to(store_after(s, RequestModel::Clear), RequestModel::GetLen)
            == ReplyModel::MessagesLen(0),
        reply_to(store_after(s, RequestModel::Clear), RequestModel::GetAll)
            == ReplyModel::Messages(Seq::empty()),
{
}

/// With no mutation in between, the length that `GetLen` reports is the
/// number of messages that `GetAll` returns.
pub proof fn lemma_length_matches_snapshot(s: Seq<Seq<char>>)
    requires
        s.len() <= usize::MAX,
    ensures
        ({
            let all = reply_to(s, RequestModel::GetAll);
            let len = reply_to(s, RequestModel::GetLen);
            &&& all is Messages
            &&& len is MessagesLen
            &&& all->Messages_0.len() == len->MessagesLen_0
        }),
{
}

} // verus!
