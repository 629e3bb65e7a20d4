//! The client's side of one connection: wait for `Hello`, send the one
//! request, and accept only the reply that answers it.

use vstd::prelude::*;

use crate::codec::{parse_reply, request_bytes};
use crate::frame::{frame, frame_bytes, MAX_FRAME_LEN};
use crate::message::{ClientToServer, ProtocolError, ReplyModel, RequestModel, ServerToClient};
use crate::server::reply_to;

verus! {

/// Whether `reply` is the kind of reply that answers `req`.
pub open spec fn answers(req: RequestModel, reply: ReplyModel) -> bool {
    match req {
        RequestModel::GetAll => reply is Messages,
        RequestModel::GetLen => reply is MessagesLen,
        RequestModel::Post(_) => reply is OK,
        RequestModel::Clear => reply is OK,
    }
}

/// Whether `reply` is the kind of reply that answers `req`.
pub fn is_answer(req: &ClientToServer, reply: &ServerToClient) -> (r: bool)
    ensures
        r == answers(req@, reply@),
{
    match req {
        ClientToServer::GetAll => matches!(reply, ServerToClient::Messages(_)),
        ClientToServer::GetLen => matches!(reply, ServerToClient::MessagesLen(_)),
        ClientToServer::Post { .. } => matches!(reply, ServerToClient::OK),
        ClientToServer::Clear => matches!(reply, ServerToClient::OK),
    }
}

/// Where a connection stands, seen from the client.
#[derive(Debug, Clone, Copy, PartialEq, Eq, Structural)]
pub enum ClientState {
    AwaitingHello,
    AwaitingReply,
    Done,
    Failed,
}

/// What the client does after a frame has arrived.
pub enum ClientStep {
    /// Send this request frame, then wait for the reply.
    Send(Vec<u8>),
    /// The exchange is over; this is the server's answer.
    Finished(ServerToClient),
}

/// The client's decisions for one connection carrying one request.
pub struct ClientSession {
    pub state: ClientState,
    pub request: ClientToServer,
}

impl ClientSession {
    /// A session that will send `request` once the server has said `Hello`.
    pub fn new(request: ClientToServer) -> (r: ClientSession)
        ensures
            r.state == ClientState::AwaitingHello,
            r.request@ == request@,
    {
        ClientSession { state: ClientState::AwaitingHello, request }
    }

    /// Handles the payload of a frame from the server. The first frame must
    /// be `Hello`, and the request frame to send is the answer to it; the
    /// second must be a reply of the kind that the request calls for. Any
    /// other frame fails the session: `MalformedMessage` when it decodes to
    /// no reply, `ProtocolViolation` when it is the wrong reply, and
    /// `ProtocolViolation` for any frame after the exchange has ended.
    pub fn on_frame(&mut self, payload: &[u8]) -> (r: Result<ClientStep, ProtocolError>)
        ensures
            final(self).request@ == old(self).request@,
            r is Err ==> final(self).state == ClientState::Failed,
            (old(self).state == ClientState::Done || old(self).state == ClientState::Failed) ==> r
                == Err::<ClientStep, ProtocolError>(ProtocolError::ProtocolViolation),
            (old(self).state == ClientState::AwaitingHello || old(self).state
                == ClientState::AwaitingReply) && parse_reply(payload@) is None ==> r == Err::<
                ClientStep,
                ProtocolError,
            >(ProtocolError::MalformedMessage),
            old(self).state == ClientState::AwaitingHello ==> match parse_reply(payload@) {
                Some(ReplyModel::Hello) => {
                    &&& request_bytes(old(self).request@).len() > MAX_FRAME_LEN ==> r == Err::<
                        ClientStep,
                        ProtocolError,
                    >(ProtocolError::FrameTooLarge)
                    &&& request_bytes(old(self).request@).len() <= MAX_FRAME_LEN ==> (
                    r matches Ok(ClientStep::Send(f)) && f@ == frame_bytes(
                        request_bytes(old(self).request@),
                    ) && final(self).state == ClientState::AwaitingReply)
                },
                Some(_) => r == Err::<ClientStep, ProtocolError>(ProtocolError::ProtocolViolation),
                None => true,
            },
            old(self).state == ClientState::AwaitingReply ==> match parse_reply(payload@) {
                Some(m) => if answers(old(self).request@, m) {
                    r matches Ok(ClientStep::Finished(reply)) && reply@ == m && final(self).state
                        == ClientState::Done
                } else {
                    r == Err::<ClientStep, ProtocolError>(ProtocolError::ProtocolViolation)
                },
                None => true,
            },
    {
        match self.state {
            ClientState::AwaitingHello => {
                match ServerToClient::decode(payload) {
                    Ok(ServerToClient::Hello) => {
                        let bytes = self.request.encode();
                        match frame(bytes.as_slice()) {
                            Ok(f) => {
                                self.state = ClientState::AwaitingReply;
                                Ok(ClientStep::Send(f))
                            },
                            Err(e) => {
                                self.state = ClientState::Failed;
                                Err(e)
                            },
                        }
                    },
                    Ok(_) => {
                        self.state = ClientState::Failed;
                        Err(ProtocolError::ProtocolViolation)
                    },
                    Err(e) => {
                        self.state = ClientState::Failed;
                        Err(e)
                    },
                }
            },
            ClientState::AwaitingReply => {
                match ServerToClient::decode(payload) {
                    Ok(reply) => {
                        if is_answer(&self.request, &reply) {
                            self.state = ClientState::Done;
                            Ok(ClientStep::Finished(reply))
                        } else {
                            self.state = ClientState::Failed;
                            Err(ProtocolError::ProtocolViolation)
                        }
                    },
                    Err(e) => {
                        self.state = ClientState::Failed;
                        Err(e)
                    },
                }
            },
            _ => {
                self.state = ClientState::Failed;
                Err(ProtocolError::ProtocolViolation)
            },
        }
    }
}

/// Whatever the store holds, the server's reply to a request is of the kind
/// that the client accepts as its answer.
pub proof fn lemma_server_reply_answers(s: Seq<Seq<char>>, req: RequestModel)
    ensures
        answers(req, reply_to(s, req)),
{
}

} // verus!
