use bore_tunnel::auth::Authenticator;
use bore_tunnel::client::{
    auth_reply, client_step, Client, ClientAuthMode, CliAction, CliEvent, CliRequest, CliState,
    ListenAction,
};
use bore_tunnel::codec::{decode_client, decode_server, encode_client, encode_server};
use bore_tunnel::msg::{ClientMessage, ServerMessage, SessionId};
use bore_tunnel::rendezvous::RendezvousTable;
use bore_tunnel::server::{
    handle_claim, AuthMode, ServerConfig, ServerErr, SrvAction, SrvEvent, SrvState,
};

fn fresh() -> SessionId {
    SessionId::new(uuid::Uuid::new_v4().as_u128())
}

/// A wire hop: what one side encoded, the other must decode.
fn over_wire_c2s(m: &ClientMessage) -> ClientMessage {
    decode_client(&encode_client(m)).expect("client message must survive the wire")
}

fn over_wire_s2c(m: &ServerMessage) -> ServerMessage {
    decode_server(&encode_server(m)).expect("server message must survive the wire")
}

#[test]
fn no_auth_happy_path() {
    // Server bound with the default range; client requests port 0.
    let cfg = ServerConfig { min_port: 1024, max_port: 65535, auth: AuthMode::Open };
    let auth = ClientAuthMode::Open;

    // Client control connection comes up and sends Hello(0).
    let (cstate, caction) = client_step(&auth, CliRequest::Tunnel(0), CliState::Start, CliEvent::Begin);
    assert_eq!(cstate, CliState::AwaitReply);
    let hello = match caction {
        CliAction::Send(m) => m,
        other => panic!("expected a send, got {:?}", other),
    };

    // Server accepts the connection, reads the Hello, binds.
    let (sstate, saction) = cfg.step(SrvState::Init, SrvEvent::Start, fresh());
    assert_eq!(sstate, SrvState::AwaitRequest);
    assert_eq!(saction, SrvAction::Nothing);
    let (sstate, saction) = cfg.step(sstate, SrvEvent::Msg(over_wire_c2s(&hello)), fresh());
    assert_eq!(saction, SrvAction::Bind(0));
    // The OS chose a port for the request of 0.
    let (sstate, saction) = cfg.step(sstate, SrvEvent::BindOk(34567), fresh());
    assert_eq!(sstate, SrvState::Tunnel);
    assert_eq!(saction, SrvAction::SendHello(34567));

    // Client records the assigned port.
    let (cstate, _) = client_step(
        &auth,
        CliRequest::Tunnel(0),
        cstate,
        CliEvent::Msg(over_wire_s2c(&ServerMessage::Hello(34567))),
    );
    assert_eq!(cstate, CliState::Ready { remote_port: 34567 });
    let client = Client::new("localhost", 8000, "example.com", 34567, auth);
    assert_eq!(client.remote_port(), 34567);

    // A public connection arrives: the server parks it and notifies.
    let mut table = RendezvousTable::new();
    let (id, notice) = table
        .park_and_notify(1_000, 10_000, 7, 1)
        .expect("a fresh id cannot collide in an empty table");
    assert_eq!(notice, ServerMessage::Connection(id));

    // The client reacts by spawning a forward for that session.
    match client.handle_listen_msg(Some(over_wire_s2c(&notice))) {
        ListenAction::Forward(got) => assert_eq!(got, id),
        other => panic!("expected a forward, got {:?}", other),
    }

    // The claim connection sends Accept(id); the server matches it.
    let (cstate2, caction2) =
        client_step(&ClientAuthMode::Open, CliRequest::Claim(id), CliState::Start, CliEvent::Begin);
    assert_eq!(cstate2, CliState::ClaimSent { id });
    let accept = match caction2 {
        CliAction::Send(m) => m,
        other => panic!("expected a send, got {:?}", other),
    };
    let (_, saction) = cfg.step(SrvState::AwaitRequest, SrvEvent::Msg(over_wire_c2s(&accept)), fresh());
    assert_eq!(saction, SrvAction::Claim(id));
    let parked = handle_claim(&mut table, id, 2_000).expect("claim within the deadline");
    assert_eq!(parked.conn, 7);

    // The same id cannot be claimed twice.
    assert_eq!(handle_claim(&mut table, id, 2_001), Err(ServerErr::InvalidAcceptId));
}

#[test]
fn secret_mismatch() {
    // Server secret "alpha", client secret "beta".
    let cfg = ServerConfig {
        min_port: 1024,
        max_port: 65535,
        auth: AuthMode::Secret(Authenticator::new("alpha")),
    };
    let client_auth = ClientAuthMode::Secret(Authenticator::new("beta"));

    let (sstate, saction) = cfg.step(SrvState::Init, SrvEvent::Start, fresh());
    let challenge = match saction {
        SrvAction::SendChallenge(c) => c,
        other => panic!("expected a challenge, got {:?}", other),
    };
    let (cstate, caction) = client_step(
        &client_auth,
        CliRequest::Tunnel(0),
        CliState::AwaitChallenge,
        CliEvent::Msg(over_wire_s2c(&ServerMessage::Challenge(challenge))),
    );
    assert_eq!(cstate, CliState::AwaitReply);
    let c = match caction {
        CliAction::Answer(c) => c,
        other => panic!("expected an answer, got {:?}", other),
    };
    let tag_msg = auth_reply(&client_auth, &c).unwrap();

    let (sstate, saction) = cfg.step(sstate, SrvEvent::Msg(over_wire_c2s(&tag_msg)), fresh());
    assert_eq!(sstate, SrvState::Closed);
    assert_eq!(saction, SrvAction::SendError(ServerErr::InvalidSecret));
    // The client startup fails mentioning "invalid secret"; no
    // listener was ever bound (no Bind action occurred).
    let err = ServerErr::InvalidSecret.message();
    assert!(err.contains("invalid secret"));
    let (cstate, _) = client_step(
        &client_auth,
        CliRequest::Tunnel(0),
        cstate,
        CliEvent::Msg(over_wire_s2c(&ServerMessage::Error(err))),
    );
    match cstate {
        CliState::Failed { err } => assert!(err.message().contains("invalid secret")),
        other => panic!("expected failure, got {:?}", other),
    }
}

#[test]
fn no_secret_offered() {
    // Server requires a secret, client has none configured: the
    // client sends Hello at once, the server is still waiting for the
    // tag and refuses.
    let cfg = ServerConfig {
        min_port: 1024,
        max_port: 65535,
        auth: AuthMode::Secret(Authenticator::new("alpha")),
    };
    let (sstate, saction) = cfg.step(SrvState::Init, SrvEvent::Start, fresh());
    let challenge = match saction {
        SrvAction::SendChallenge(c) => c,
        other => panic!("expected a challenge, got {:?}", other),
    };
    let (sstate2, saction2) = cfg.step(
        sstate,
        SrvEvent::Msg(ClientMessage::Hello(0)),
        fresh(),
    );
    assert_eq!(sstate2, SrvState::Closed);
    assert_eq!(saction2, SrvAction::SendError(ServerErr::NoSecret));

    // The unauthenticated client sees the challenge where it awaited
    // the Hello reply and fails with "server requires authentication".
    let (cstate, _) = client_step(
        &ClientAuthMode::Open,
        CliRequest::Tunnel(0),
        CliState::AwaitReply,
        CliEvent::Msg(over_wire_s2c(&ServerMessage::Challenge(challenge))),
    );
    match cstate {
        CliState::Failed { err } => {
            assert!(err.message().contains("server requires authentication"))
        },
        other => panic!("expected failure, got {:?}", other),
    }
}

#[test]
fn rendezvous_timeout() {
    // A public connection is parked; the claim arrives after the
    // 10 s deadline: the entry is unreachable and the Accept is
    // answered with "invalid accept id".
    let mut table = RendezvousTable::new();
    let (id, _) = table.park_and_notify(0, 10_000, 3, 1).unwrap();
    // 11 seconds later.
    let r = handle_claim(&mut table, id, 11_000);
    assert_eq!(r, Err(ServerErr::InvalidAcceptId));
    assert!(ServerErr::InvalidAcceptId.message().contains("invalid accept id"));
    // Even an in-time claim afterwards finds nothing: the expired
    // entry was swept by the failed claim.
    assert_eq!(handle_claim(&mut table, id, 9_000), Err(ServerErr::InvalidAcceptId));
}

#[test]
fn sweep_reaps_expired_only() {
    let mut table = RendezvousTable::new();
    let (id_old, _) = table.park_and_notify(0, 10_000, 1, 1).unwrap();
    let (id_new, _) = table.park_and_notify(5_000, 10_000, 2, 1).unwrap();
    table.sweep(12_000);
    assert_eq!(handle_claim(&mut table, id_old, 12_000), Err(ServerErr::InvalidAcceptId));
    let got = handle_claim(&mut table, id_new, 12_000).unwrap();
    assert_eq!(got.conn, 2);
}

#[test]
fn tunnel_teardown_reaps_its_entries() {
    let mut table = RendezvousTable::new();
    let (id_a, _) = table.park_and_notify(0, 10_000, 1, 7).unwrap();
    let (id_b, _) = table.park_and_notify(0, 10_000, 2, 8).unwrap();
    table.remove_tunnel(7);
    assert_eq!(handle_claim(&mut table, id_a, 1), Err(ServerErr::InvalidAcceptId));
    assert_eq!(handle_claim(&mut table, id_b, 1).unwrap().conn, 2);
}

#[test]
fn port_out_of_range() {
    // Server range 4000..=4010, client requests 8080.
    let cfg = ServerConfig { min_port: 4000, max_port: 4010, auth: AuthMode::Open };
    let (sstate, saction) = cfg.step(
        SrvState::AwaitRequest,
        SrvEvent::Msg(ClientMessage::Hello(8080)),
        fresh(),
    );
    assert_eq!(sstate, SrvState::Closed);
    assert_eq!(saction, SrvAction::SendError(ServerErr::PortNotInRange));
    assert!(ServerErr::PortNotInRange.message().contains("port not in range"));
    // In range, the request goes through to the bind.
    let (_, saction) = cfg.step(
        SrvState::AwaitRequest,
        SrvEvent::Msg(ClientMessage::Hello(4005)),
        fresh(),
    );
    assert_eq!(saction, SrvAction::Bind(4005));
    // The client reports the error and exits nonzero.
    let (cstate, _) = client_step(
        &ClientAuthMode::Open,
        CliRequest::Tunnel(8080),
        CliState::AwaitReply,
        CliEvent::Msg(ServerMessage::Error(ServerErr::PortNotInRange.message())),
    );
    match cstate {
        CliState::Failed { err } => assert!(err.message().contains("port not in range")),
        other => panic!("expected failure, got {:?}", other),
    }
}

#[test]
fn api_key_denial() {
    // The validator answered {"valid": false}: the handshake fails
    // with "invalid API key" and no listener is created.
    let cfg = ServerConfig {
        min_port: 1024,
        max_port: 65535,
        auth: AuthMode::ApiKey(String::from("https://example.com/validate")),
    };
    let (sstate, saction) = cfg.step(SrvState::Init, SrvEvent::Start, fresh());
    assert_eq!(sstate, SrvState::AwaitKey);
    assert!(matches!(saction, SrvAction::SendChallenge(_)));
    let (sstate, saction) = cfg.step(
        sstate,
        SrvEvent::Msg(ClientMessage::Authenticate(String::from("k-123"))),
        fresh(),
    );
    assert_eq!(sstate, SrvState::AwaitVerdict);
    assert_eq!(saction, SrvAction::CheckApiKey(String::from("k-123")));
    let verdict = bore_tunnel::apikey::api_key_authorized(true, Some(b"{\"valid\": false}"));
    let (sstate, saction) = cfg.step(sstate, SrvEvent::Verdict(verdict), fresh());
    assert_eq!(sstate, SrvState::Closed);
    assert_eq!(saction, SrvAction::SendError(ServerErr::InvalidApiKey));
    assert!(ServerErr::InvalidApiKey.message().contains("invalid API key"));
}

#[test]
fn api_key_acceptance() {
    let cfg = ServerConfig {
        min_port: 1024,
        max_port: 65535,
        auth: AuthMode::ApiKey(String::from("https://example.com/validate")),
    };
    let verdict = bore_tunnel::apikey::api_key_authorized(true, Some(b"{\"valid\":true}"));
    let (sstate, saction) = cfg.step(SrvState::AwaitVerdict, SrvEvent::Verdict(verdict), fresh());
    assert_eq!(sstate, SrvState::AwaitRequest);
    assert_eq!(saction, SrvAction::Nothing);
}

#[test]
fn secret_handshake_succeeds_end_to_end() {
    let cfg = ServerConfig {
        min_port: 1024,
        max_port: 65535,
        auth: AuthMode::Secret(Authenticator::new("alpha")),
    };
    let client_auth = ClientAuthMode::Secret(Authenticator::new("alpha"));
    let (sstate, saction) = cfg.step(SrvState::Init, SrvEvent::Start, fresh());
    let challenge = match saction {
        SrvAction::SendChallenge(c) => c,
        other => panic!("expected a challenge, got {:?}", other),
    };
    let (_, caction) = client_step(
        &client_auth,
        CliRequest::Tunnel(0),
        CliState::AwaitChallenge,
        CliEvent::Msg(over_wire_s2c(&ServerMessage::Challenge(challenge))),
    );
    let c = match caction {
        CliAction::Answer(c) => c,
        other => panic!("expected an answer, got {:?}", other),
    };
    let tag_msg = auth_reply(&client_auth, &c).unwrap();
    let (sstate, saction) = cfg.step(sstate, SrvEvent::Msg(over_wire_c2s(&tag_msg)), fresh());
    assert_eq!(sstate, SrvState::AwaitRequest);
    assert_eq!(saction, SrvAction::Nothing);
}

#[test]
fn heartbeats_are_ignored() {
    let client = Client::new("localhost", 8000, "example.com", 1, ClientAuthMode::Open);
    for _ in 0..100 {
        assert_eq!(client.handle_listen_msg(Some(ServerMessage::Heartbeat)), ListenAction::Ignore);
    }
    // The tunnel-side heartbeat emitter keeps the tunnel state as is.
    let cfg = ServerConfig { min_port: 1024, max_port: 65535, auth: AuthMode::Open };
    let (sstate, saction) = cfg.step(SrvState::Tunnel, SrvEvent::TunnelTick, fresh());
    assert_eq!(sstate, SrvState::Tunnel);
    assert_eq!(saction, SrvAction::SendHeartbeat);
}

#[test]
fn listen_loop_actions() {
    let client = Client::new("localhost", 8000, "example.com", 1, ClientAuthMode::Open);
    assert_eq!(client.handle_listen_msg(None), ListenAction::Exit);
    assert_eq!(
        client.handle_listen_msg(Some(ServerMessage::Hello(1))),
        ListenAction::Surprise
    );
    assert_eq!(
        client.handle_listen_msg(Some(ServerMessage::Challenge(SessionId::new(1)))),
        ListenAction::Surprise
    );
    assert_eq!(
        client.handle_listen_msg(Some(ServerMessage::Error(String::from("e")))),
        ListenAction::LogError(String::from("e"))
    );
}

#[test]
fn tunnel_terminates_on_violation_or_eof() {
    let cfg = ServerConfig { min_port: 1024, max_port: 65535, auth: AuthMode::Open };
    let (s1, a1) = cfg.step(SrvState::Tunnel, SrvEvent::TunnelMsg, fresh());
    assert_eq!(s1, SrvState::Closed);
    assert_eq!(a1, SrvAction::CloseTunnel);
    let (s2, a2) = cfg.step(SrvState::Tunnel, SrvEvent::TunnelEof, fresh());
    assert_eq!(s2, SrvState::Closed);
    assert_eq!(a2, SrvAction::CloseTunnel);
}

#[test]
fn client_claim_eof_errors() {
    // EOF where a reply was owed.
    let (cstate, _) = client_step(
        &ClientAuthMode::Open,
        CliRequest::Tunnel(0),
        CliState::AwaitReply,
        CliEvent::NoMsg,
    );
    match cstate {
        CliState::Failed { err } => assert!(err.message().contains("unexpected EOF")),
        other => panic!("expected failure, got {:?}", other),
    }
    // Secret mode, but the server never challenges.
    let (cstate, _) = client_step(
        &ClientAuthMode::Secret(Authenticator::new("s")),
        CliRequest::Tunnel(0),
        CliState::AwaitChallenge,
        CliEvent::Msg(ServerMessage::Hello(5)),
    );
    match cstate {
        CliState::Failed { err } => {
            assert!(err.message().contains("no secret was required"))
        },
        other => panic!("expected failure, got {:?}", other),
    }
    // API-key mode without a challenge.
    let (cstate, _) = client_step(
        &ClientAuthMode::ApiKey(String::from("k")),
        CliRequest::Tunnel(0),
        CliState::AwaitChallenge,
        CliEvent::NoMsg,
    );
    match cstate {
        CliState::Failed { err } => {
            assert!(err.message().contains("expected authentication challenge"))
        },
        other => panic!("expected failure, got {:?}", other),
    }
}

#[test]
fn api_key_client_answers_with_raw_key() {
    let auth = ClientAuthMode::ApiKey(String::from("k-456"));
    let reply = auth_reply(&auth, &SessionId::new(9)).unwrap();
    assert_eq!(reply, ClientMessage::Authenticate(String::from("k-456")));
    assert_eq!(auth_reply(&ClientAuthMode::Open, &SessionId::new(9)), None);
}

#[test]
fn error_texts_are_exact() {
    assert_eq!(ServerErr::NoApiKey.message(), "server requires API key authentication");
    assert_eq!(
        ServerErr::NoSecret.message(),
        "server requires secret, but no secret was provided"
    );
    assert_eq!(ServerErr::UnexpectedMessage.message(), "unexpected message");
    assert_eq!(
        ServerErr::BindFailed(String::from("address already in use")).message(),
        "address already in use"
    );
    let (_, action) = client_step(
        &ClientAuthMode::Open,
        CliRequest::Tunnel(0),
        CliState::Start,
        CliEvent::Begin,
    );
    assert!(matches!(action, CliAction::Send(_)));
}

#[test]
fn parking_succeeds_on_empty_table() {
    // On an empty table every freshly drawn id is new, so parking is
    // owed to succeed and to emit the notice.
    let mut table = RendezvousTable::new();
    assert!(table.park_and_notify(0, 10_000, 1, 1).is_some());
}
