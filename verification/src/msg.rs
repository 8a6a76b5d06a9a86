use vstd::prelude::*;

verus! {

/// Opaque session / challenge identifier: the 128 bits of a UUID,
/// kept as a plain integer so that contracts can speak of it directly.
#[derive(Clone, Copy, PartialEq, Eq, Structural, Debug, Hash)]
pub struct SessionId {
    pub id: u128,
}

/// Control message sent by the server to the client.
#[derive(Debug, Clone, PartialEq)]
pub enum ServerMessage {
    /// Reply to the client's tunnel request, carrying the assigned public port.
    Hello(u16),
    /// First message of an authenticated handshake.
    Challenge(SessionId),
    /// A new public connection is waiting, referenced by its session id.
    Connection(SessionId),
    /// Liveness ping; carries no data.
    Heartbeat,
    /// Protocol-level error intended for logging by the peer.
    Error(String),
}

/// Control message sent by the client to the server.
#[derive(Debug, Clone, PartialEq)]
pub enum ClientMessage {
    /// Response to a `Challenge` (hex HMAC tag or raw API key).
    Authenticate(String),
    /// Request a tunnel; port `0` means "server chooses".
    Hello(u16),
    /// Claim a parked connection by its session id.
    Accept(SessionId),
}

/// Ghost form of a server message: payloads as mathematical values.
pub ghost enum ServerMsgV {
    Hello(u16),
    Challenge(u128),
    Connection(u128),
    Heartbeat,
    Error(Seq<char>),
}

/// Ghost form of a client message.
pub ghost enum ClientMsgV {
    Authenticate(Seq<char>),
    Hello(u16),
    Accept(u128),
}

impl View for ServerMessage {
    type V = ServerMsgV;

    open spec fn view(&self) -> ServerMsgV {
        match self {
            ServerMessage::Hello(p) => ServerMsgV::Hello(*p),
            ServerMessage::Challenge(c) => ServerMsgV::Challenge(c.id),
            ServerMessage::Connection(c) => ServerMsgV::Connection(c.id),
            ServerMessage::Heartbeat => ServerMsgV::Heartbeat,
            ServerMessage::Error(t) => ServerMsgV::Error(t@),
        }
    }
}

impl View for ClientMessage {
    type V = ClientMsgV;

    open spec fn view(&self) -> ClientMsgV {
        match self {
            ClientMessage::Authenticate(t) => ClientMsgV::Authenticate(t@),
            ClientMessage::Hello(p) => ClientMsgV::Hello(*p),
            ClientMessage::Accept(c) => ClientMsgV::Accept(c.id),
        }
    }
}

impl SessionId {
    /// Build an identifier from its 128-bit value.
    pub fn new(id: u128) -> (r: SessionId)
        ensures
            r.id == id,
    {
        SessionId { id }
    }
}

} // verus!
