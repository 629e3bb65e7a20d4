//! Requests sent by a client and replies sent by the server, with their
//! mathematical models.

use vstd::prelude::*;

verus! {

/// What a client asks of the server.
#[derive(Debug, Clone, PartialEq, Eq)]
pub enum ClientToServer {
    GetAll,
    GetLen,
    Post { content: String },
    Clear,
}

/// What the server sends back; `Hello` is the mandatory first frame of every
/// connection.
#[derive(Debug, Clone, PartialEq, Eq)]
pub enum ServerToClient {
    Hello,
    Messages(Vec<String>),
    MessagesLen(usize),
    OK,
}

/// Why an exchange failed.
#[derive(Debug, Clone, Copy, PartialEq, Eq, Structural)]
pub enum ProtocolError {
    /// The bytes are not the encoding of any message of the expected kind.
    MalformedMessage,
    /// A well-formed message arrived where the protocol does not allow it.
    ProtocolViolation,
    /// A frame announces or would carry more bytes than the frame limit.
    FrameTooLarge,
}

/// Model of a request: strings are sequences of characters.
pub enum RequestModel {
    GetAll,
    GetLen,
    Post(Seq<char>),
    Clear,
}

/// Model of a reply.
pub enum ReplyModel {
    Hello,
    Messages(Seq<Seq<char>>),
    MessagesLen(usize),
    OK,
}

/// The characters of each string of a vector, in order.
pub open spec fn strings_view(v: Seq<String>) -> Seq<Seq<char>> {
    v.map_values(|s: String| s@)
}

impl View for ClientToServer {
    type V = RequestModel;

    open spec fn view(&self) -> RequestModel {
        match self {
            ClientToServer::GetAll => RequestModel::GetAll,
            ClientToServer::GetLen => RequestModel::GetLen,
            ClientToServer::Post { content } => RequestModel::Post(content@),
            ClientToServer::Clear => RequestModel::Clear,
        }
    }
}

impl View for ServerToClient {
    type V = ReplyModel;

    open spec fn view(&self) -> ReplyModel {
        match self {
            ServerToClient::Hello => ReplyModel::Hello,
            ServerToClient::Messages(v) => ReplyModel::Messages(strings_view(v@)),
            ServerToClient::MessagesLen(n) => ReplyModel::MessagesLen(*n),
            ServerToClient::OK => ReplyModel::OK,
        }
    }
}

} // verus!
