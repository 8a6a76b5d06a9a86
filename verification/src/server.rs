//! The server's per-connection handshake and dispatch machine. The
//! networked runtime performs each action (send, bind, HTTP check,
//! claim) and feeds the outcome back as the next event; the decisions
//! are all made and verified here.

use vstd::prelude::*;

verus! {

use crate::auth::Authenticator;
use crate::msg::{ClientMessage, ServerMessage, SessionId};
use vstd::string::StringExecFns;

/// How the server authenticates clients.
pub enum AuthMode {
    /// No authentication; every connection is accepted.
    Open,
    /// Shared secret: HMAC challenge/response.
    Secret(Authenticator),
    /// Remote API-key validation; the string is the validation URL.
    ApiKey(String),
}

/// Immutable server configuration, shared by all handshakes.
pub struct ServerConfig {
    pub min_port: u16,
    pub max_port: u16,
    pub auth: AuthMode,
}

/// Per-connection handshake state.
#[derive(Debug, Clone, PartialEq)]
pub enum SrvState {
    Init,
    /// Challenge sent; awaiting the HMAC tag.
    AwaitTag { challenge: SessionId },
    /// Challenge sent; awaiting the raw API key.
    AwaitKey,
    /// API key forwarded to the validator; awaiting its verdict.
    AwaitVerdict,
    /// Authenticated (or no auth configured); awaiting Hello or Accept.
    AwaitRequest,
    /// Bind requested from the runtime.
    AwaitBind { requested: u16 },
    /// Tunnel established on this control connection.
    Tunnel,
    /// An Accept was dispatched for this claim connection.
    Claimed { id: SessionId },
    Closed,
}

/// What the runtime reports to the machine.
#[derive(Debug, Clone, PartialEq)]
pub enum SrvEvent {
    /// The connection was accepted on the control port.
    Start,
    /// One decoded client message arrived.
    Msg(ClientMessage),
    /// Timeout or EOF while a message was awaited.
    NoMsg,
    /// Verdict of the remote API-key validation.
    Verdict(bool),
    /// The tunnel listener was bound on this port.
    BindOk(u16),
    /// The bind failed; the OS message.
    BindErr(String),
    /// Any inbound message after the tunnel is up (protocol violation).
    TunnelMsg,
    /// EOF on the control connection of an established tunnel.
    TunnelEof,
    /// Heartbeat cadence elapsed on an idle tunnel.
    TunnelTick,
}

/// Why a connection is refused; rendered to the peer as an `Error`.
#[derive(Debug, Clone, PartialEq)]
pub enum ServerErr {
    InvalidSecret,
    NoSecret,
    InvalidApiKey,
    NoApiKey,
    PortNotInRange,
    /// The claimed id is unknown or expired.
    InvalidAcceptId,
    BindFailed(String),
    UnexpectedMessage,
}

impl ServerErr {
    /// The error text sent to the peer.
    pub fn message(&self) -> (r: String)
        ensures
            self is PortNotInRange ==> r@ =~= "port not in range"@,
            self is InvalidAcceptId ==> r@ =~= "invalid accept id"@,
            self is InvalidSecret ==> r@ =~= "invalid secret"@,
            self is InvalidApiKey ==> r@ =~= "invalid API key"@,
            self is NoSecret ==> r@ =~= "server requires secret, but no secret was provided"@,
            self is NoApiKey ==> r@ =~= "server requires API key authentication"@,
            self is UnexpectedMessage ==> r@ =~= "unexpected message"@,
            (match self {
                ServerErr::BindFailed(t) => r@ == t@,
                _ => true,
            }),
    {
        match self {
            ServerErr::InvalidSecret => String::from_str("invalid secret"),
            ServerErr::NoSecret => String::from_str(
                "server requires secret, but no secret was provided",
            ),
            ServerErr::InvalidApiKey => String::from_str("invalid API key"),
            ServerErr::NoApiKey => String::from_str("server requires API key authentication"),
            ServerErr::PortNotInRange => String::from_str("port not in range"),
            ServerErr::InvalidAcceptId => String::from_str("invalid accept id"),
            ServerErr::BindFailed(t) => String::from_str(t.as_str()),
            ServerErr::UnexpectedMessage => String::from_str("unexpected message"),
        }
    }
}

/// What the runtime must do next.
#[derive(Debug, Clone, PartialEq)]
pub enum SrvAction {
    /// Send `Challenge` with this id.
    SendChallenge(SessionId),
    /// POST this key to the validation URL and report the verdict.
    CheckApiKey(String),
    /// Send `Error` with this reason, then close the connection.
    SendError(ServerErr),
    /// Bind the public listener (0 lets the OS choose), then report.
    Bind(u16),
    /// Send `Hello` with the bound port; the tunnel is up.
    SendHello(u16),
    /// Look the id up in the rendezvous table and splice or refuse.
    Claim(SessionId),
    /// Send a `Heartbeat` on the tunnel's control connection.
    SendHeartbeat,
    /// Tear the tunnel down: close the listener, sweep its parked
    /// connections, drop the control socket.
    CloseTunnel,
    Nothing,
}

/// The transition function of the machine.
pub open spec fn spec_server_step(
    cfg: ServerConfig,
    state: SrvState,
    event: SrvEvent,
    fresh: SessionId,
) -> (SrvState, SrvAction) {
    match state {
        SrvState::Init => match event {
            SrvEvent::Start => match cfg.auth {
                AuthMode::Open => (SrvState::AwaitRequest, SrvAction::Nothing),
                AuthMode::Secret(_) => (
                    SrvState::AwaitTag { challenge: fresh },
                    SrvAction::SendChallenge(fresh),
                ),
                AuthMode::ApiKey(_) => (SrvState::AwaitKey, SrvAction::SendChallenge(fresh)),
            },
            _ => (SrvState::Closed, SrvAction::Nothing),
        },
        SrvState::AwaitTag { challenge } => match event {
            SrvEvent::Msg(ClientMessage::Authenticate(tag)) => match cfg.auth {
                AuthMode::Secret(a) => if Authenticator::spec_validate(
                    a.key_view(),
                    challenge.id,
                    tag@,
                ) {
                    (SrvState::AwaitRequest, SrvAction::Nothing)
                } else {
                    (SrvState::Closed, SrvAction::SendError(ServerErr::InvalidSecret))
                },
                _ => (SrvState::Closed, SrvAction::SendError(ServerErr::NoSecret)),
            },
            _ => (SrvState::Closed, SrvAction::SendError(ServerErr::NoSecret)),
        },
        SrvState::AwaitKey => match event {
            SrvEvent::Msg(ClientMessage::Authenticate(key)) => (
                SrvState::AwaitVerdict,
                SrvAction::CheckApiKey(key),
            ),
            _ => (SrvState::Closed, SrvAction::SendError(ServerErr::NoApiKey)),
        },
        SrvState::AwaitVerdict => match event {
            SrvEvent::Verdict(true) => (SrvState::AwaitRequest, SrvAction::Nothing),
            _ => (SrvState::Closed, SrvAction::SendError(ServerErr::InvalidApiKey)),
        },
        SrvState::AwaitRequest => match event {
            SrvEvent::Msg(ClientMessage::Hello(port)) => if port != 0 && (port < cfg.min_port
                || port > cfg.max_port) {
                (SrvState::Closed, SrvAction::SendError(ServerErr::PortNotInRange))
            } else {
                (SrvState::AwaitBind { requested: port }, SrvAction::Bind(port))
            },
            SrvEvent::Msg(ClientMessage::Accept(id)) => (
                SrvState::Claimed { id },
                SrvAction::Claim(id),
            ),
            _ => (SrvState::Closed, SrvAction::SendError(ServerErr::UnexpectedMessage)),
        },
        SrvState::AwaitBind { requested } => match event {
            SrvEvent::BindOk(p) => (SrvState::Tunnel, SrvAction::SendHello(p)),
            SrvEvent::BindErr(t) => (
                SrvState::Closed,
                SrvAction::SendError(ServerErr::BindFailed(t)),
            ),
            _ => (SrvState::Closed, SrvAction::Nothing),
        },
        SrvState::Tunnel => match event {
            SrvEvent::TunnelTick => (SrvState::Tunnel, SrvAction::SendHeartbeat),
            _ => (SrvState::Closed, SrvAction::CloseTunnel),
        },
        SrvState::Claimed { id } => (SrvState::Closed, SrvAction::Nothing),
        SrvState::Closed => (SrvState::Closed, SrvAction::Nothing),
    }
}

/// States a connection reaches only after authentication (or with no
/// authentication configured).
pub open spec fn authed(s: SrvState) -> bool {
    s is AwaitRequest || s is AwaitBind || s is Tunnel || s is Claimed
}

/// The transitions that grant authentication: starting with no auth
/// configured, a tag that validates against the issued challenge, or
/// a positive verdict of the remote validator.
pub open spec fn auth_grant(cfg: ServerConfig, state: SrvState, event: SrvEvent) -> bool {
    ||| (cfg.auth is Open && state is Init && event is Start)
    ||| match (state, event) {
        (
            SrvState::AwaitTag { challenge },
            SrvEvent::Msg(ClientMessage::Authenticate(tag)),
        ) => match cfg.auth {
            AuthMode::Secret(a) => Authenticator::spec_validate(a.key_view(), challenge.id, tag@),
            _ => false,
        },
        (SrvState::AwaitVerdict, SrvEvent::Verdict(v)) => v,
        _ => false,
    }
}

/// Port requests are vetted before any bind: `Bind(p)` is emitted
/// only for `p == 0` (the OS chooses) or `p` inside the range.
pub proof fn lemma_bind_in_range(
    cfg: ServerConfig,
    state: SrvState,
    event: SrvEvent,
    fresh: SessionId,
)
    ensures
        forall|p: u16|
            spec_server_step(cfg, state, event, fresh).1 == SrvAction::Bind(p) ==> p == 0 || (
            cfg.min_port <= p && p <= cfg.max_port),
{
}

/// No Hello and no Accept is acted on before authentication: the
/// dispatching actions only leave the authenticated waiting state,
/// and that state is entered only by an authentication grant.
pub proof fn lemma_auth_gate(
    cfg: ServerConfig,
    state: SrvState,
    event: SrvEvent,
    fresh: SessionId,
)
    ensures
        (spec_server_step(cfg, state, event, fresh).1 is Bind || spec_server_step(
            cfg,
            state,
            event,
            fresh,
        ).1 is Claim) ==> state is AwaitRequest,
        authed(spec_server_step(cfg, state, event, fresh).0) ==> authed(state) || auth_grant(
            cfg,
            state,
            event,
        ),
{
}

/// A tag that is not the answer to the issued challenge is refused
/// with "invalid secret" and the connection is closed. Stated for
/// tags without uppercase hex digits: the hex decoder accepts either
/// case, so the uppercase spelling of the correct tag also validates.
pub proof fn lemma_secret_mismatch(
    cfg: ServerConfig,
    a: Authenticator,
    challenge: SessionId,
    tag: String,
    fresh: SessionId,
)
    requires
        cfg.auth == AuthMode::Secret(a),
        tag@ != Authenticator::spec_answer(a.key_view(), challenge.id),
        forall|i: int|
            0 <= i < vstd::utf8::encode_utf8(tag@).len() ==> !crate::digits::is_upper_hex(
                #[trigger] vstd::utf8::encode_utf8(tag@)[i],
            ),
    ensures
        spec_server_step(
            cfg,
            SrvState::AwaitTag { challenge },
            SrvEvent::Msg(ClientMessage::Authenticate(tag)),
            fresh,
        ) == (SrvState::Closed, SrvAction::SendError(ServerErr::InvalidSecret)),
{
    crate::auth::lemma_validate_only_answer(a.key_view(), challenge.id, tag@);
}

/// The answer to the issued challenge is accepted and the connection
/// becomes authenticated.
pub proof fn lemma_secret_match(
    cfg: ServerConfig,
    a: Authenticator,
    challenge: SessionId,
    tag: String,
    fresh: SessionId,
)
    requires
        cfg.auth == AuthMode::Secret(a),
        tag@ == Authenticator::spec_answer(a.key_view(), challenge.id),
    ensures
        spec_server_step(
            cfg,
            SrvState::AwaitTag { challenge },
            SrvEvent::Msg(ClientMessage::Authenticate(tag)),
            fresh,
        ) == (SrvState::AwaitRequest, SrvAction::Nothing),
{
    crate::auth::lemma_answer_validates(a.key_view(), challenge.id);
}

/// A run of the machine over a sequence of events.
pub open spec fn spec_run(
    cfg: ServerConfig,
    s: SrvState,
    events: Seq<SrvEvent>,
    ids: Seq<SessionId>,
) -> SrvState
    decreases events.len(),
{
    if events.len() == 0 {
        s
    } else {
        spec_run(
            cfg,
            spec_server_step(cfg, s, events[0], ids[0]).0,
            events.drop_first(),
            ids.drop_first(),
        )
    }
}

/// No step of the run grants authentication.
pub open spec fn run_no_grant(
    cfg: ServerConfig,
    s: SrvState,
    events: Seq<SrvEvent>,
    ids: Seq<SessionId>,
) -> bool
    decreases events.len(),
{
    events.len() == 0 || (!auth_grant(cfg, s, events[0]) && run_no_grant(
        cfg,
        spec_server_step(cfg, s, events[0], ids[0]).0,
        events.drop_first(),
        ids.drop_first(),
    ))
}

/// No step of the run dispatches a Hello or an Accept.
pub open spec fn run_never_dispatches(
    cfg: ServerConfig,
    s: SrvState,
    events: Seq<SrvEvent>,
    ids: Seq<SessionId>,
) -> bool
    decreases events.len(),
{
    events.len() == 0 || (!(spec_server_step(cfg, s, events[0], ids[0]).1 is Bind)
        && !(spec_server_step(cfg, s, events[0], ids[0]).1 is Claim) && run_never_dispatches(
        cfg,
        spec_server_step(cfg, s, events[0], ids[0]).0,
        events.drop_first(),
        ids.drop_first(),
    ))
}

/// On a connection that is never granted authentication, no Hello and
/// no Accept is ever processed, whatever else arrives.
pub proof fn lemma_unauthenticated_trace(
    cfg: ServerConfig,
    s: SrvState,
    events: Seq<SrvEvent>,
    ids: Seq<SessionId>,
)
    requires
        !authed(s),
        run_no_grant(cfg, s, events, ids),
    ensures
        !authed(spec_run(cfg, s, events, ids)),
        run_never_dispatches(cfg, s, events, ids),
    decreases events.len(),
{
    if events.len() > 0 {
        lemma_auth_gate(cfg, s, events[0], ids[0]);
        lemma_unauthenticated_trace(
            cfg,
            spec_server_step(cfg, s, events[0], ids[0]).0,
            events.drop_first(),
            ids.drop_first(),
        );
    }
}

impl ServerConfig {
    /// One step of the machine: consume an event, produce the next
    /// state and the action the runtime must perform. `fresh` is a
    /// newly minted id, used only where a challenge is issued.
    pub fn step(&self, state: SrvState, event: SrvEvent, fresh: SessionId) -> (r: (
        SrvState,
        SrvAction,
    ))
        ensures
            r == spec_server_step(*self, state, event, fresh),
    {
        match state {
            SrvState::Init => match event {
                SrvEvent::Start => match &self.auth {
                    AuthMode::Open => (SrvState::AwaitRequest, SrvAction::Nothing),
                    AuthMode::Secret(_) => (
                        SrvState::AwaitTag { challenge: fresh },
                        SrvAction::SendChallenge(fresh),
                    ),
                    AuthMode::ApiKey(_) => (SrvState::AwaitKey, SrvAction::SendChallenge(fresh)),
                },
                _ => (SrvState::Closed, SrvAction::Nothing),
            },
            SrvState::AwaitTag { challenge } => match event {
                SrvEvent::Msg(ClientMessage::Authenticate(tag)) => match &self.auth {
                    AuthMode::Secret(a) => if a.validate(&challenge, tag.as_str()) {
                        (SrvState::AwaitRequest, SrvAction::Nothing)
                    } else {
                        (SrvState::Closed, SrvAction::SendError(ServerErr::InvalidSecret))
                    },
                    _ => (SrvState::Closed, SrvAction::SendError(ServerErr::NoSecret)),
                },
                _ => (SrvState::Closed, SrvAction::SendError(ServerErr::NoSecret)),
            },
            SrvState::AwaitKey => match event {
                SrvEvent::Msg(ClientMessage::Authenticate(key)) => (
                    SrvState::AwaitVerdict,
                    SrvAction::CheckApiKey(key),
                ),
                _ => (SrvState::Closed, SrvAction::SendError(ServerErr::NoApiKey)),
            },
            SrvState::AwaitVerdict => match event {
                SrvEvent::Verdict(true) => (SrvState::AwaitRequest, SrvAction::Nothing),
                _ => (SrvState::Closed, SrvAction::SendError(ServerErr::InvalidApiKey)),
            },
            SrvState::AwaitRequest => match event {
                SrvEvent::Msg(ClientMessage::Hello(port)) => if port != 0 && (port < self.min_port
                    || port > self.max_port) {
                    (SrvState::Closed, SrvAction::SendError(ServerErr::PortNotInRange))
                } else {
                    (SrvState::AwaitBind { requested: port }, SrvAction::Bind(port))
                },
                SrvEvent::Msg(ClientMessage::Accept(id)) => (
                    SrvState::Claimed { id },
                    SrvAction::Claim(id),
                ),
                _ => (SrvState::Closed, SrvAction::SendError(ServerErr::UnexpectedMessage)),
            },
            SrvState::AwaitBind { requested: _ } => match event {
                SrvEvent::BindOk(p) => (SrvState::Tunnel, SrvAction::SendHello(p)),
                SrvEvent::BindErr(t) => (
                    SrvState::Closed,
                    SrvAction::SendError(ServerErr::BindFailed(t)),
                ),
                _ => (SrvState::Closed, SrvAction::Nothing),
            },
            SrvState::Tunnel => match event {
                SrvEvent::TunnelTick => (SrvState::Tunnel, SrvAction::SendHeartbeat),
                _ => (SrvState::Closed, SrvAction::CloseTunnel),
            },
            SrvState::Claimed { id: _ } => (SrvState::Closed, SrvAction::Nothing),
            SrvState::Closed => (SrvState::Closed, SrvAction::Nothing),
        }
    }
}

/// Resolve a dispatched Accept against the rendezvous table: a live
/// entry is removed and handed to this claim connection; an unknown
/// or expired id is refused.
pub fn handle_claim(
    table: &mut crate::rendezvous::RendezvousTable,
    id: SessionId,
    now_ms: u64,
) -> (r: Result<crate::rendezvous::ParkedConn, ServerErr>)
    requires
        old(table).wf(),
    ensures
        final(table).wf(),
        match r {
            Ok(e) => (final(table)@, Some(e)) == crate::rendezvous::spec_claim(
                old(table)@,
                id.id,
                now_ms,
            ),
            Err(e) => e == ServerErr::InvalidAcceptId && (final(table)@, None::<
                crate::rendezvous::ParkedConn,
            >) == crate::rendezvous::spec_claim(old(table)@, id.id, now_ms),
        },
{
    match table.claim(id, now_ms) {
        Some(e) => Ok(e),
        None => Err(ServerErr::InvalidAcceptId),
    }
}

} // verus!
