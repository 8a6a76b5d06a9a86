//! The client's handshake machine and listen-loop decisions. The
//! runtime dials, reads and writes; which message to send and what a
//! reply means are decided and verified here.

use vstd::prelude::*;

verus! {

use crate::auth::Authenticator;
use crate::msg::{ClientMessage, ServerMessage, ServerMsgV, SessionId};
use vstd::string::StringExecFns;

/// How the client authenticates itself.
pub enum ClientAuthMode {
    /// No secret and no API key configured.
    Open,
    /// Shared secret.
    Secret(Authenticator),
    /// Raw API key, sent verbatim when challenged.
    ApiKey(String),
}

/// What the client asks of the server on one connection: a tunnel for
/// the main control connection, a claim for each forwarded session.
#[derive(Debug, Clone, Copy, PartialEq)]
pub enum CliRequest {
    Tunnel(u16),
    Claim(SessionId),
}

/// Why the client fails its startup or a claim connection.
#[derive(Debug, Clone, PartialEq)]
pub enum ClientError {
    /// The server answered `Error(text)`.
    ServerError(String),
    /// The server sent a `Challenge` but no secret or key is configured.
    AuthRequired,
    /// A challenge was awaited (secret mode) and something else came.
    NoSecretRequired,
    /// A challenge was awaited (API-key mode) and something else came.
    ChallengeExpected,
    /// The reply to `Hello` was neither `Hello` nor `Error`.
    UnexpectedReply,
    /// EOF or timeout where a reply was owed.
    UnexpectedEof,
}

impl ClientError {
    /// The text the process reports before exiting nonzero.
    pub fn message(&self) -> (r: String)
        ensures
            self is AuthRequired ==> r@ =~=
                "server requires authentication, but no client secret or API key was provided"@,
            self is NoSecretRequired ==> r@ =~=
                "expected authentication challenge, but no secret was required"@,
            self is ChallengeExpected ==> r@ =~= "expected authentication challenge"@,
            self is UnexpectedReply ==> r@ =~= "unexpected initial non-hello message"@,
            self is UnexpectedEof ==> r@ =~= "unexpected EOF"@,
            (match self {
                ClientError::ServerError(t) => r@ =~= "server error: "@ + t@,
                _ => true,
            }),
    {
        match self {
            ClientError::ServerError(t) => {
                let mut s = String::from_str("server error: ");
                s.append(t.as_str());
                s
            },
            ClientError::AuthRequired => String::from_str(
                "server requires authentication, but no client secret or API key was provided",
            ),
            ClientError::NoSecretRequired => String::from_str(
                "expected authentication challenge, but no secret was required",
            ),
            ClientError::ChallengeExpected => String::from_str(
                "expected authentication challenge",
            ),
            ClientError::UnexpectedReply => String::from_str(
                "unexpected initial non-hello message",
            ),
            ClientError::UnexpectedEof => String::from_str("unexpected EOF"),
        }
    }
}

/// Per-connection client handshake state.
#[derive(Debug, Clone, PartialEq)]
pub enum CliState {
    Start,
    /// Auth is configured; the server's challenge is awaited.
    AwaitChallenge,
    /// The request was sent; the reply to `Hello` is awaited.
    AwaitReply,
    /// Tunnel granted on this port.
    Ready { remote_port: u16 },
    /// Accept sent; the connection now dissolves to a raw stream.
    ClaimSent { id: SessionId },
    Failed { err: ClientError },
}

/// What the runtime reports to the machine.
#[derive(Debug, Clone, PartialEq)]
pub enum CliEvent {
    /// The control connection is up.
    Begin,
    /// One decoded server message arrived.
    Msg(ServerMessage),
    /// Timeout or EOF while a reply was awaited.
    NoMsg,
}

/// What the runtime must do next.
#[derive(Debug, Clone, PartialEq)]
pub enum CliAction {
    /// Send this one message.
    Send(ClientMessage),
    /// Answer this challenge (see [`auth_reply`]), then send the
    /// request message.
    Answer(SessionId),
    Nothing,
}

/// The request message for this connection.
pub open spec fn spec_request_msg(req: CliRequest) -> ClientMessage {
    match req {
        CliRequest::Tunnel(port) => ClientMessage::Hello(port),
        CliRequest::Claim(id) => ClientMessage::Accept(id),
    }
}

/// The state after the request is sent: a tunnel waits for the
/// server's reply, a claim connection is done talking.
pub open spec fn spec_after_request(req: CliRequest) -> CliState {
    match req {
        CliRequest::Tunnel(_) => CliState::AwaitReply,
        CliRequest::Claim(id) => CliState::ClaimSent { id },
    }
}

/// The transition function of the client machine.
pub open spec fn spec_client_step(
    auth: ClientAuthMode,
    req: CliRequest,
    state: CliState,
    event: CliEvent,
) -> (CliState, CliAction) {
    match state {
        CliState::Start => match event {
            CliEvent::Begin => match auth {
                ClientAuthMode::Open => (
                    spec_after_request(req),
                    CliAction::Send(spec_request_msg(req)),
                ),
                _ => (CliState::AwaitChallenge, CliAction::Nothing),
            },
            _ => (CliState::Failed { err: ClientError::UnexpectedEof }, CliAction::Nothing),
        },
        CliState::AwaitChallenge => match event {
            CliEvent::Msg(ServerMessage::Challenge(c)) => match auth {
                ClientAuthMode::Open => (
                    CliState::Failed { err: ClientError::AuthRequired },
                    CliAction::Nothing,
                ),
                _ => (spec_after_request(req), CliAction::Answer(c)),
            },
            _ => match auth {
                ClientAuthMode::ApiKey(_) => (
                    CliState::Failed { err: ClientError::ChallengeExpected },
                    CliAction::Nothing,
                ),
                _ => (
                    CliState::Failed { err: ClientError::NoSecretRequired },
                    CliAction::Nothing,
                ),
            },
        },
        CliState::AwaitReply => match event {
            CliEvent::Msg(ServerMessage::Hello(p)) => (
                CliState::Ready { remote_port: p },
                CliAction::Nothing,
            ),
            CliEvent::Msg(ServerMessage::Error(t)) => (
                CliState::Failed { err: ClientError::ServerError(t) },
                CliAction::Nothing,
            ),
            CliEvent::Msg(ServerMessage::Challenge(_)) => (
                CliState::Failed { err: ClientError::AuthRequired },
                CliAction::Nothing,
            ),
            CliEvent::Msg(_) => (
                CliState::Failed { err: ClientError::UnexpectedReply },
                CliAction::Nothing,
            ),
            _ => (CliState::Failed { err: ClientError::UnexpectedEof }, CliAction::Nothing),
        },
        _ => (state, CliAction::Nothing),
    }
}

/// One step of the client handshake machine.
pub fn client_step(auth: &ClientAuthMode, req: CliRequest, state: CliState, event: CliEvent)
    -> (r: (CliState, CliAction))
    ensures
        r == spec_client_step(*auth, req, state, event),
{
    match state {
        CliState::Start => match event {
            CliEvent::Begin => match auth {
                ClientAuthMode::Open => {
                    let m = request_msg(req);
                    (after_request(req), CliAction::Send(m))
                },
                _ => (CliState::AwaitChallenge, CliAction::Nothing),
            },
            _ => (CliState::Failed { err: ClientError::UnexpectedEof }, CliAction::Nothing),
        },
        CliState::AwaitChallenge => match event {
            CliEvent::Msg(ServerMessage::Challenge(c)) => match auth {
                ClientAuthMode::Open => (
                    CliState::Failed { err: ClientError::AuthRequired },
                    CliAction::Nothing,
                ),
                _ => (after_request(req), CliAction::Answer(c)),
            },
            _ => match auth {
                ClientAuthMode::ApiKey(_) => (
                    CliState::Failed { err: ClientError::ChallengeExpected },
                    CliAction::Nothing,
                ),
                _ => (
                    CliState::Failed { err: ClientError::NoSecretRequired },
                    CliAction::Nothing,
                ),
            },
        },
        CliState::AwaitReply => match event {
            CliEvent::Msg(ServerMessage::Hello(p)) => (
                CliState::Ready { remote_port: p },
                CliAction::Nothing,
            ),
            CliEvent::Msg(ServerMessage::Error(t)) => (
                CliState::Failed { err: ClientError::ServerError(t) },
                CliAction::Nothing,
            ),
            CliEvent::Msg(ServerMessage::Challenge(_)) => (
                CliState::Failed { err: ClientError::AuthRequired },
                CliAction::Nothing,
            ),
            CliEvent::Msg(_) => (
                CliState::Failed { err: ClientError::UnexpectedReply },
                CliAction::Nothing,
            ),
            _ => (CliState::Failed { err: ClientError::UnexpectedEof }, CliAction::Nothing),
        },
        other => (other, CliAction::Nothing),
    }
}

fn request_msg(req: CliRequest) -> (r: ClientMessage)
    ensures
        r == spec_request_msg(req),
{
    match req {
        CliRequest::Tunnel(port) => ClientMessage::Hello(port),
        CliRequest::Claim(id) => ClientMessage::Accept(id),
    }
}

fn after_request(req: CliRequest) -> (r: CliState)
    ensures
        r == spec_after_request(req),
{
    match req {
        CliRequest::Tunnel(_) => CliState::AwaitReply,
        CliRequest::Claim(id) => CliState::ClaimSent { id },
    }
}

/// The message answering a challenge: the hex HMAC tag under a
/// secret, the raw key under an API key, nothing when no auth is
/// configured (the challenge then means the server wants what the
/// client cannot give).
pub fn auth_reply(auth: &ClientAuthMode, challenge: &SessionId) -> (r: Option<ClientMessage>)
    ensures
        match auth {
            ClientAuthMode::Secret(a) => match r {
                Some(m) => m@ == crate::msg::ClientMsgV::Authenticate(
                    Authenticator::spec_answer(a.key_view(), challenge.id),
                ),
                None => false,
            },
            ClientAuthMode::ApiKey(key) => match r {
                Some(m) => m@ == crate::msg::ClientMsgV::Authenticate(key@),
                None => false,
            },
            ClientAuthMode::Open => r is None,
        },
{
    match auth {
        ClientAuthMode::Secret(a) => Some(ClientMessage::Authenticate(a.answer(challenge))),
        ClientAuthMode::ApiKey(key) => Some(ClientMessage::Authenticate(key.clone())),
        ClientAuthMode::Open => None,
    }
}

/// What the listen loop does with one inbound control message.
#[derive(Debug, Clone, PartialEq)]
pub enum ListenAction {
    /// Heartbeat: liveness only, nothing happens.
    Ignore,
    /// A protocol surprise (Hello or Challenge mid-stream): log, go on.
    Surprise,
    /// Spawn one forward for this session.
    Forward(SessionId),
    /// The server reported an error: log it, go on.
    LogError(String),
    /// EOF: exit cleanly.
    Exit,
}

pub open spec fn spec_listen_action(m: Option<ServerMessage>) -> ListenAction {
    match m {
        Some(ServerMessage::Heartbeat) => ListenAction::Ignore,
        Some(ServerMessage::Connection(id)) => ListenAction::Forward(id),
        Some(ServerMessage::Hello(_)) => ListenAction::Surprise,
        Some(ServerMessage::Challenge(_)) => ListenAction::Surprise,
        Some(ServerMessage::Error(t)) => ListenAction::LogError(t),
        None => ListenAction::Exit,
    }
}

/// The sessions a sequence of control messages asks the client to
/// forward, in order.
pub open spec fn forwards_of(ms: Seq<ServerMsgV>) -> Seq<u128>
    decreases ms.len(),
{
    if ms.len() == 0 {
        Seq::empty()
    } else {
        (match ms[0] {
            ServerMsgV::Connection(id) => seq![id],
            _ => Seq::empty(),
        }) + forwards_of(ms.drop_first())
    }
}

proof fn lemma_forwards_concat(a: Seq<ServerMsgV>, b: Seq<ServerMsgV>)
    ensures
        forwards_of(a + b) == forwards_of(a) + forwards_of(b),
    decreases a.len(),
{
    if a.len() == 0 {
        assert(a + b =~= b);
        assert(forwards_of(a) + forwards_of(b) =~= forwards_of(b));
    } else {
        lemma_forwards_concat(a.drop_first(), b);
        assert((a + b).drop_first() =~= a.drop_first() + b);
        assert((a + b)[0] == a[0]);
        let h = match a[0] {
            ServerMsgV::Connection(id) => seq![id],
            _ => Seq::<u128>::empty(),
        };
        assert(forwards_of(a + b) == h + (forwards_of(a.drop_first()) + forwards_of(b)));
        assert(h + (forwards_of(a.drop_first()) + forwards_of(b)) =~= (h + forwards_of(
            a.drop_first(),
        )) + forwards_of(b));
    }
}

/// Heartbeats are observationally idempotent: a heartbeat inserted
/// anywhere in the inbound stream is ignored and changes nothing in
/// what the client forwards.
pub proof fn lemma_heartbeat_idempotent(a: Seq<ServerMsgV>, b: Seq<ServerMsgV>)
    ensures
        forwards_of(a + seq![ServerMsgV::Heartbeat] + b) == forwards_of(a + b),
        spec_listen_action(Some(ServerMessage::Heartbeat)) is Ignore,
{
    lemma_forwards_concat(a, seq![ServerMsgV::Heartbeat] + b);
    lemma_forwards_concat(seq![ServerMsgV::Heartbeat], b);
    lemma_forwards_concat(a, b);
    assert(a + seq![ServerMsgV::Heartbeat] + b =~= a + (seq![ServerMsgV::Heartbeat] + b));
    assert(seq![ServerMsgV::Heartbeat].drop_first() =~= Seq::<ServerMsgV>::empty());
    assert(forwards_of(Seq::<ServerMsgV>::empty()) =~= Seq::<u128>::empty());
    assert(forwards_of(seq![ServerMsgV::Heartbeat]) =~= Seq::<u128>::empty());
    assert(forwards_of(a) + (Seq::<u128>::empty() + forwards_of(b)) =~= forwards_of(a)
        + forwards_of(b));
}

/// The listen loop forwards exactly the announced sessions: a
/// forward is produced if and only if the message is `Connection`,
/// with the id passed through unchanged.
pub proof fn lemma_forward_iff_connection(m: Option<ServerMessage>, id: SessionId)
    ensures
        spec_listen_action(m) == ListenAction::Forward(id) <==> m == Some(
            ServerMessage::Connection(id),
        ),
{
    match m {
        Some(ServerMessage::Connection(c)) => {},
        _ => {},
    }
}

/// State of one running client.
pub struct Client {
    /// Destination address of the server.
    to: String,
    /// Local host that is forwarded.
    local_host: String,
    /// Local port that is forwarded.
    local_port: u16,
    /// Port publicly available on the remote.
    remote_port: u16,
    /// Authentication mode, fixed at startup.
    auth: ClientAuthMode,
}

impl Client {
    pub closed spec fn spec_to(&self) -> Seq<char> {
        self.to@
    }

    pub closed spec fn spec_local_host(&self) -> Seq<char> {
        self.local_host@
    }

    pub closed spec fn spec_local_port(&self) -> u16 {
        self.local_port
    }

    pub closed spec fn spec_remote_port(&self) -> u16 {
        self.remote_port
    }

    pub closed spec fn spec_auth(&self) -> ClientAuthMode {
        self.auth
    }

    /// Record a client whose startup handshake granted this port.
    pub fn new(
        local_host: &str,
        local_port: u16,
        to: &str,
        remote_port: u16,
        auth: ClientAuthMode,
    ) -> (r: Client)
        ensures
            r.spec_local_host() == local_host@,
            r.spec_local_port() == local_port,
            r.spec_to() == to@,
            r.spec_remote_port() == remote_port,
            r.spec_auth() == auth,
    {
        Client {
            to: String::from_str(to),
            local_host: String::from_str(local_host),
            local_port,
            remote_port,
            auth,
        }
    }

    /// The port publicly available on the remote.
    pub fn remote_port(&self) -> (r: u16)
        ensures
            r == self.spec_remote_port(),
    {
        self.remote_port
    }

    /// Destination address of the server.
    pub fn to(&self) -> (r: &str)
        ensures
            r@ == self.spec_to(),
    {
        self.to.as_str()
    }

    /// Local host that is forwarded.
    pub fn local_host(&self) -> (r: &str)
        ensures
            r@ == self.spec_local_host(),
    {
        self.local_host.as_str()
    }

    /// Local port that is forwarded.
    pub fn local_port(&self) -> (r: u16)
        ensures
            r == self.spec_local_port(),
    {
        self.local_port
    }

    /// The authentication mode, for the per-claim handshakes.
    pub fn auth(&self) -> (r: &ClientAuthMode)
        ensures
            *r == self.spec_auth(),
    {
        &self.auth
    }

    /// Decide what to do with one message of the listen loop.
    pub fn handle_listen_msg(&self, m: Option<ServerMessage>) -> (r: ListenAction)
        ensures
            r == spec_listen_action(m),
    {
        match m {
            Some(ServerMessage::Heartbeat) => ListenAction::Ignore,
            Some(ServerMessage::Connection(id)) => ListenAction::Forward(id),
            Some(ServerMessage::Hello(_)) => ListenAction::Surprise,
            Some(ServerMessage::Challenge(_)) => ListenAction::Surprise,
            Some(ServerMessage::Error(t)) => ListenAction::LogError(t),
            None => ListenAction::Exit,
        }
    }
}

} // verus!
