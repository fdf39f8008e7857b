use terminalt::error::AppError;
use terminalt::known_hosts::HostKeyIdentity;
use terminalt::models::{
    Duplicate, AuthType, ConnectionRequest, JumpHostRequest, ProxyRequest, ProxyType, RouteRequest,
    TransferConflictPolicy, TransferDirection, TunnelKind, TunnelProfile, TunnelStartPolicy,
    TunnelStatus,
};
use terminalt::session_loop::{
    ChannelMessage, SessionAction, SessionCommand, SessionEvent, SessionLoop, SftpRequest,
};
use terminalt::ssh_errors::{
    captured_fingerprint, captured_identity, check_server_key, connection_refused,
    map_connect_error, map_private_key_error, map_russh_error, ConnectFault, KeyFault, SshFault,
};
use terminalt::ssh_login::{
    list_agent_identities, plain_keys, prompt_payload, trial_order, AgentIdentity, AgentKey,
    AgentLogin, InteractiveLogin, InteractivePrompt, InteractiveReply, InteractiveStep, Login,
    LoginMethod, LoginReply, Transport,
};
use terminalt::ssh_route::{
    authentication_timeout, hop_target, started_session, RouteAction, RouteConnection, SessionStart, StartEvent,
    StartStep,
};
use terminalt::terminal::{end_message, SessionEnd};
use terminalt::tunnel::{
    remote_bound_port, tunnel_role, ConnectionSlots, ForwardTarget, RemoteForward,
    RemoteForwardTable, TunnelRegistry, TunnelRole,
};

fn request(name: &str) -> ConnectionRequest {
    ConnectionRequest {
        name: name.to_owned(),
        host: format!("{name}.example"),
        port: 22,
        username: "alice".to_owned(),
        auth_type: AuthType::Password,
        password: Some("must-not-appear".to_owned()),
        private_key_path: None,
        private_key_passphrase: None,
        agent_key_fingerprint: None,
        proxy: None,
        columns: 80,
        rows: 24,
        timeout_seconds: 15,
        keepalive_enabled: true,
        keepalive_seconds: 30,
    }
}

fn route(jumps: usize) -> RouteRequest {
    RouteRequest {
        target: request("target"),
        jump_hosts: (0..jumps)
            .map(|index| JumpHostRequest {
                connection: request(&format!("jump-{index}")),
                expected_fingerprint: format!("SHA256:{index}"),
            })
            .collect(),
    }
}

/// An Ed25519 key in its wire form.
fn key(seed: u8) -> Vec<u8> {
    let mut bytes = vec![0, 0, 0, 11];
    bytes.extend_from_slice(b"ssh-ed25519");
    bytes.extend_from_slice(&[0, 0, 0, 32]);
    bytes.extend_from_slice(&[seed; 32]);
    bytes
}

#[test]
fn keys_are_compared_by_fingerprint() {
    let shown = Some(key(1));
    let fingerprint = captured_fingerprint(&shown).unwrap();
    assert!(fingerprint.starts_with("SHA256:"));
    assert!(check_server_key(&key(1), &fingerprint));
    assert!(!check_server_key(&key(2), &fingerprint));
    assert!(!check_server_key(&vec![1, 2, 3], &fingerprint));
    let identity = captured_identity(&shown).unwrap();
    assert_eq!(identity.algorithm, "ssh-ed25519");
    assert_eq!(identity.fingerprint_sha256, fingerprint);
    assert!(identity.public_key.starts_with("ssh-ed25519 AAAA"));
    assert_eq!(
        captured_identity(&None).unwrap_err().code,
        "HOST-KEY-MISSING"
    );
    assert_eq!(
        captured_identity(&Some(vec![1, 2, 3])).unwrap_err().code,
        "SSH-PROTOCOL-ERROR"
    );
}

#[test]
fn refused_connections_tell_of_a_changed_key() {
    let error = map_russh_error(SshFault::KeyRejected, "Unknown server key");
    assert_eq!(error.code, "HOST-KEY-REJECTED");
    let changed = connection_refused(
        &Some("SHA256:b".to_owned()),
        "SHA256:a",
        error.duplicate(),
    );
    assert_eq!(changed.code, "HOST-KEY-CHANGED");
    let same = connection_refused(&Some("SHA256:a".to_owned()), "SHA256:a", error.duplicate());
    assert_eq!(same.code, "HOST-KEY-REJECTED");
    assert_eq!(
        connection_refused(&None, "SHA256:a", error).code,
        "HOST-KEY-REJECTED"
    );
}

#[test]
fn errors_are_told_apart() {
    for (fault, code) in [
        (ConnectFault::NotFound, "DNS-RESOLUTION-FAILED"),
        (ConnectFault::Refused, "CONNECTION-REFUSED"),
        (ConnectFault::TimedOut, "CONNECTION-TIMEOUT"),
        (ConnectFault::Network, "NETWORK-ERROR"),
        (ConnectFault::Ssh(SshFault::Closed), "REMOTE-CLOSED"),
        (
            ConnectFault::Ssh(SshFault::NoCommonAlgorithm),
            "SSH-NO-COMMON-ALGORITHM",
        ),
        (ConnectFault::Ssh(SshFault::TimedOut), "CONNECTION-TIMEOUT"),
        (ConnectFault::Ssh(SshFault::Other), "SSH-PROTOCOL-ERROR"),
    ] {
        assert_eq!(map_connect_error(fault, "x").code, code);
    }
    for (fault, details, code) in [
        (KeyFault::NotFound, "x", "PRIVATE-KEY-NOT-FOUND"),
        (KeyFault::PermissionDenied, "x", "PRIVATE-KEY-PERMISSION-DENIED"),
        (KeyFault::Encrypted, "x", "PRIVATE-KEY-PASSPHRASE-REQUIRED"),
        (KeyFault::Other, "Decrypt failed", "PRIVATE-KEY-PASSPHRASE-INVALID"),
        (KeyFault::Other, "bad PassWord", "PRIVATE-KEY-PASSPHRASE-INVALID"),
        (KeyFault::Other, "not a key", "PRIVATE-KEY-INVALID"),
    ] {
        assert_eq!(map_private_key_error(fault, details).code, code);
    }
}

fn identity() -> HostKeyIdentity {
    captured_identity(&Some(key(1))).unwrap()
}

#[test]
fn incorrect_password_is_rejected_without_echoing_the_secret() {
    let mut login = Login::new(request("target"), "SHA256:a", false);
    assert!(matches!(login.transport(), Transport::Direct { port: 22, .. }));
    assert_eq!(login.keepalive(), Some(30));
    login.dialled_with(None, &Some("SHA256:a".to_owned()), Ok(identity()));
    match login.take_method() {
        LoginMethod::Password(password) => assert_eq!(password, "must-not-appear"),
        other => panic!("another login: {other:?}"),
    }
    match login.take_method() {
        LoginMethod::Password(password) => assert!(password.is_empty()),
        other => panic!("another login: {other:?}"),
    }
    login.authenticated(Ok(LoginReply {
        accepted: false,
        text: "Failure { partial_success: false }".to_owned(),
    }));
    let error = login.outcome().unwrap().unwrap_err();
    assert_eq!(error.code, "AUTHENTICATION-FAILED");
    assert!(!format!("{error:?}").contains("must-not-appear"));
}

#[test]
fn accepted_logins_give_the_identity() {
    let mut with_key = request("target");
    with_key.auth_type = AuthType::PrivateKey;
    with_key.private_key_path = Some("/home/a/id_ed25519".to_owned());
    with_key.private_key_passphrase = Some("key-passphrase".to_owned());
    with_key.proxy = Some(ProxyRequest {
        proxy_type: ProxyType::Http,
        host: "proxy".to_owned(),
        port: 8080,
        username: None,
        password: None,
    });
    assert_eq!(hop_target(&with_key).host, "proxy");
    let fingerprint = captured_fingerprint(&Some(key(1))).unwrap();
    let mut login = Login::new(with_key, &fingerprint, false);
    assert!(matches!(login.transport(), Transport::Proxy(_)));
    login.dialled(None, &Some(key(1)));
    assert!(login.failure().is_none());
    match login.take_method() {
        LoginMethod::PrivateKey { path, passphrase } => {
            assert_eq!(path, "/home/a/id_ed25519");
            assert_eq!(passphrase.as_deref(), Some("key-passphrase"));
        }
        other => panic!("another login: {other:?}"),
    }
    login.authenticated(Ok(LoginReply {
        accepted: true,
        text: "Success".to_owned(),
    }));
    assert_eq!(
        login.outcome().unwrap().unwrap().fingerprint_sha256,
        fingerprint
    );

    let mut login = Login::new(request("target"), "SHA256:another", true);
    assert!(matches!(login.transport(), Transport::Stream));
    login.dialled(
        Some(map_russh_error(SshFault::KeyRejected, "x")),
        &Some(key(1)),
    );
    assert_eq!(login.failure().unwrap().code, "HOST-KEY-CHANGED");
    assert_eq!(
        login.outcome().unwrap().unwrap_err().code,
        "HOST-KEY-CHANGED"
    );
}

#[test]
fn unconfirmed_keys_are_refused_though_the_server_was_reached() {
    let mut login = Login::new(request("target"), "SHA256:another", false);
    login.dialled(None, &Some(key(1)));
    assert_eq!(login.failure().unwrap().code, "HOST-KEY-CHANGED");
    let mut login = Login::new(request("target"), "SHA256:another", false);
    login.dialled(None, &None);
    assert_eq!(login.failure().unwrap().code, "HOST-KEY-MISSING");
}

fn questions(count: usize) -> InteractiveReply {
    InteractiveReply::Questions {
        name: "terminalt".to_owned(),
        instructions: String::new(),
        prompts: (0..count)
            .map(|index| InteractivePrompt {
                text: format!("code {index}"),
                echo: false,
            })
            .collect(),
    }
}

#[test]
fn questions_are_asked_until_the_server_accepts() {
    assert_eq!(
        InteractiveLogin::new(false).err().unwrap().code,
        "AUTH-INTERACTIVE-UNAVAILABLE"
    );
    let mut login = InteractiveLogin::new(true).unwrap();
    match login.reply(&questions(2)) {
        InteractiveStep::Ask(ids) => assert_eq!(ids, vec!["answer-0", "answer-1"]),
        other => panic!("expected questions, got {other:?}"),
    }
    let prompts = vec![InteractivePrompt {
        text: "Code: ".to_owned(),
        echo: false,
    }];
    let payload = prompt_payload("op", "prompt", &request("target"), "n", "i", &prompts);
    assert_eq!(payload.target, "alice@target.example:22");
    assert_eq!(payload.prompts[0].id, "answer-0");
    assert!(!payload.prompts[0].echo);
    assert!(matches!(
        login.reply(&InteractiveReply::Success),
        InteractiveStep::Succeeded
    ));
}

fn failed(step: InteractiveStep) -> AppError {
    match step {
        InteractiveStep::Failed(error) => error,
        other => panic!("the login went on: {other:?}"),
    }
}

#[test]
fn servers_may_not_ask_without_end() {
    let mut login = InteractiveLogin::new(true).unwrap();
    let error = failed(login.reply(&questions(17)));
    assert_eq!(error.code, "AUTH-INTERACTIVE-LIMIT");
    assert_eq!(
        error.technical_details.as_deref(),
        Some("received 17 prompts in one round")
    );
    let mut login = InteractiveLogin::new(true).unwrap();
    for _ in 0..16 {
        assert!(matches!(login.reply(&questions(1)), InteractiveStep::Ask(_)));
    }
    assert_eq!(
        failed(login.reply(&InteractiveReply::Success)).code,
        "AUTH-INTERACTIVE-LIMIT"
    );
    let mut login = InteractiveLogin::new(true).unwrap();
    assert_eq!(
        failed(login.reply(&InteractiveReply::Failure)).code,
        "AUTH-INTERACTIVE-REJECTED"
    );
}

#[test]
fn preferred_agent_keys_are_tried_first() {
    let held: Vec<AgentIdentity> = vec![
        AgentIdentity::PublicKey(AgentKey {
            key: key(1),
            comment: "one".to_owned(),
        }),
        AgentIdentity::Certificate,
        AgentIdentity::PublicKey(AgentKey {
            key: key(2),
            comment: "two".to_owned(),
        }),
    ];
    let keys = plain_keys(&held);
    assert_eq!(keys.len(), 2);
    let infos = list_agent_identities(&keys);
    assert_eq!(infos[1].comment, "two");
    assert_eq!(infos[1].algorithm, "ssh-ed25519");
    let preferred = Some(infos[1].fingerprint_sha256.clone());
    let mut login = AgentLogin::new(&keys, &preferred);
    assert_eq!(login.next().unwrap(), 1);
    assert_eq!(login.next().unwrap(), 0);
    assert_eq!(login.next().unwrap_err().code, "AUTH-AGENT-REJECTED");
    let mut none = AgentLogin::new(&Vec::new(), &None);
    assert_eq!(none.next().unwrap_err().code, "AUTH-AGENT-NO-KEYS");
    let prints = vec![Some("a".to_owned()), None, Some("b".to_owned())];
    assert_eq!(trial_order(&prints, &Some("b".to_owned())), vec![2, 0, 1]);
    assert_eq!(trial_order(&prints, &None), vec![0, 1, 2]);
}

#[test]
fn a_route_goes_from_one_jump_to_the_next() {
    let mut connection = RouteConnection::new(route(2), true);
    assert_eq!(
        connection.progress().as_deref(),
        Some("正在连接第 1/2 跳：jump-0")
    );
    let mut done = Vec::new();
    loop {
        let action = connection.action();
        if matches!(action, RouteAction::Finish) {
            break;
        }
        done.push(format!("{action:?}"));
        connection.advance(None);
    }
    assert_eq!(done.len(), 5);
    assert!(done[1].contains("jump-1.example"));
    assert!(done[3].contains("target.example"));
    assert!(connection.outcome().unwrap().is_ok());
}

#[test]
fn changed_second_jump_fingerprint_blocks_the_route() {
    let mut connection = RouteConnection::new(route(2), true);
    connection.advance(None);
    assert_eq!(
        connection.progress().as_deref(),
        Some("正在连接第 2/2 跳：jump-1")
    );
    connection.advance(None);
    connection.advance(Some(AppError::ssh(
        "HOST-KEY-CHANGED",
        "服务器身份与确认时不一致，连接已阻止",
        "changed",
        false,
    )));
    match connection.action() {
        RouteAction::Close { index, reason } => {
            assert_eq!(index, 0);
            assert_eq!(reason, "jump authentication failed");
        }
        other => panic!("a server stayed connected: {other:?}"),
    }
    connection.advance(None);
    let error = connection.outcome().unwrap().unwrap_err();
    assert_eq!(error.code, "JUMP-HOST-FAILED");
    assert!(error.message.contains("2/2"));
    assert_eq!(
        error.technical_details.as_deref(),
        Some("jump 2/2 target=jump-1.example:22 cause=HOST-KEY-CHANGED details=changed")
    );
    assert!(!error.retryable);
}

#[test]
fn targets_that_fail_keep_their_error() {
    let mut connection = RouteConnection::new(route(1), true);
    connection.advance(None);
    connection.advance(Some(map_connect_error(ConnectFault::Refused, "x")));
    assert!(matches!(connection.action(), RouteAction::Close { .. }));
    connection.advance(None);
    assert_eq!(
        connection.outcome().unwrap().unwrap_err().code,
        "CONNECTION-REFUSED"
    );
    let inspecting = RouteConnection::new(route(0), false);
    assert!(matches!(inspecting.action(), RouteAction::Finish));
    assert_eq!(authentication_timeout(&route(2)), Some(45));
}

#[test]
fn sessions_fall_back_to_a_new_connection() {
    let mut start = SessionStart::new(true);
    start.advance(StartEvent::Found(true));
    assert!(matches!(start.step(), StartStep::OpenShared));
    start.advance(StartEvent::Failed(map_russh_error(SshFault::Closed, "x")));
    assert!(matches!(start.step(), StartStep::Forget));
    start.advance(StartEvent::Done);
    assert!(matches!(start.step(), StartStep::Connect));
    start.advance(StartEvent::Done);
    assert!(matches!(start.step(), StartStep::Approve));
    for _ in 0..6 {
        start.advance(StartEvent::Done);
    }
    assert!(start.outcome().unwrap().is_ok());
    let state = started_session("session-1".to_owned(), "Production");
    assert_eq!((state.id.as_str(), state.title.as_str()), ("session-1", "Production"));
}

#[test]
fn output_is_sent_on_byte_by_byte() {
    let text = "\u{1b}[38;2;50;215;168m真彩色\u{1b}[0m\r\n中文 / 🚀 / ＡＢ / e\u{301}\r\n\u{1b}[2J\u{1b}[H";
    let mut session = SessionLoop::new("session-1");
    for byte in text.as_bytes() {
        let event = SessionEvent::Message(ChannelMessage::Data(vec![*byte]));
        assert!(matches!(session.handle(event), SessionAction::Wait));
    }
    match session.handle(SessionEvent::Tick) {
        SessionAction::Emit(bytes) => assert_eq!(bytes, text.as_bytes()),
        other => panic!("nothing was sent on: {other:?}"),
    }
    assert!(matches!(session.handle(SessionEvent::Tick), SessionAction::Wait));
}

#[test]
fn large_output_is_sent_on_in_chunks() {
    let mut session = SessionLoop::new("session-1");
    let chunk = vec![b'x'; 8 * 1024];
    let mut sent = 0;
    for _ in 0..640 {
        if let SessionAction::Emit(bytes) =
            session.handle(SessionEvent::Message(ChannelMessage::Data(chunk.clone())))
        {
            assert_eq!(bytes.len(), 64 * 1024);
            sent += bytes.len();
        }
    }
    assert_eq!(sent, 5 * 1024 * 1024);
    match session.handle(SessionEvent::Command(Some(SessionCommand::Data(
        b"still-interactive".to_vec(),
    )))) {
        SessionAction::Write(bytes) => assert_eq!(bytes, b"still-interactive"),
        other => panic!("nothing was written: {other:?}"),
    }
}

#[test]
fn sessions_end_with_a_reason() {
    let mut session = SessionLoop::new("session-1");
    let SessionAction::StartTransfer(task) =
        session.handle(SessionEvent::Command(Some(SessionCommand::StartTransfer {
            direction: TransferDirection::Upload,
            sources: vec!["/a".to_owned()],
            target_directory: "/tmp".to_owned(),
            conflict_policy: TransferConflictPolicy::Ask,
        })))
    else {
        panic!("no transfer was started");
    };
    assert_eq!(task.session_id, "session-1");
    assert!(matches!(
        session.handle(SessionEvent::Command(Some(SessionCommand::Files(
            SftpRequest::Rename {
                path: "/a".to_owned(),
                new_name: "b".to_owned(),
            }
        )))),
        SessionAction::Enqueue(SftpRequest::Rename { .. })
    ));
    session.handle(SessionEvent::Message(ChannelMessage::Data(b"bye".to_vec())));
    assert!(matches!(
        session.handle(SessionEvent::Message(ChannelMessage::ExitStatus(2))),
        SessionAction::Finish
    ));
    assert!(matches!(
        session.handle(SessionEvent::Command(None)),
        SessionAction::Finish
    ));
    let ending = session.finish().unwrap();
    assert_eq!(ending.output.as_deref(), Some(&b"bye"[..]));
    assert_eq!(ending.cancelled, vec![task.id]);
    assert_eq!(
        ending.payload.message.as_deref(),
        Some("远端 Shell 已退出，状态码 2")
    );
    assert_eq!(
        ending.report,
        "session=session-1 result=远端 Shell 已退出，状态码 2"
    );
    assert_eq!(
        end_message(&SessionEnd::WriteFailed("reset".to_owned())),
        "网络写入失败：reset"
    );
    assert!(SessionLoop::new("session-2").finish().is_none());
}

#[test]
fn transfers_are_cancelled_once() {
    let mut session = SessionLoop::new("session-1");
    let SessionAction::StartTransfer(task) =
        session.handle(SessionEvent::Command(Some(SessionCommand::StartTransfer {
            direction: TransferDirection::Download,
            sources: vec!["/a".to_owned()],
            target_directory: "/tmp".to_owned(),
            conflict_policy: TransferConflictPolicy::Ask,
        })))
    else {
        panic!("no transfer was started");
    };
    let cancel = || {
        SessionEvent::Command(Some(SessionCommand::CancelTransfer {
            task_id: task.id.clone(),
        }))
    };
    assert!(matches!(
        session.handle(cancel()),
        SessionAction::CancelTransfer(_)
    ));
    assert!(matches!(session.handle(cancel()), SessionAction::Wait));
    assert!(matches!(
        session.handle(SessionEvent::Command(Some(SessionCommand::Close))),
        SessionAction::CloseChannel
    ));
    assert!(session.finish().unwrap().cancelled.is_empty());
}

fn profile(id: &str, kind: TunnelKind) -> TunnelProfile {
    TunnelProfile {
        id: id.to_owned(),
        name: "Database".to_owned(),
        connection_id: "connection".to_owned(),
        kind,
        bind_host: "127.0.0.1".to_owned(),
        bind_port: 15432,
        target_host: Some("db.internal".to_owned()),
        target_port: Some(5432),
        start_policy: TunnelStartPolicy::Manual,
        created_at: String::new(),
        updated_at: String::new(),
    }
}

#[test]
fn tunnels_start_once_and_stop_once() {
    let mut registry = TunnelRegistry::new();
    let (state, started) = registry.start("session", &profile("p", TunnelKind::Local));
    assert!(started);
    assert_eq!(state.status, TunnelStatus::Starting);
    assert_eq!(registry.set_running(&state.runtime_id, 15433).unwrap().bound_port, 15433);
    let (again, started) = registry.start("session", &profile("p", TunnelKind::Local));
    assert!(!started);
    assert_eq!(again.runtime_id, state.runtime_id);
    assert_eq!(registry.list().len(), 1);
    assert!(registry.has_active_session("session"));
    assert!(!registry.has_active_session("other"));

    registry.connection_opened(&state.runtime_id);
    assert_eq!(registry.by_profile("p").unwrap().active_connections, 1);
    registry.connection_closed(&state.runtime_id, 10, 20);
    let counted = registry.by_profile("p").unwrap();
    assert_eq!(
        (counted.active_connections, counted.bytes_up, counted.bytes_down),
        (0, 10, 20)
    );

    let (stopping, told) = registry.stop(&state.runtime_id).unwrap();
    assert!(told);
    assert_eq!(stopping.status, TunnelStatus::Stopping);
    assert!(!registry.stop(&state.runtime_id).unwrap().1);
    assert_eq!(registry.stop("missing").unwrap_err().code, "TUNNEL-NOT-FOUND");
    let stopped = registry.finish(&state.runtime_id, Ok(())).unwrap();
    assert_eq!(stopped.status, TunnelStatus::Stopped);

    let (second, started) = registry.start("session", &profile("p", TunnelKind::Local));
    assert!(started);
    let stopped = registry.stop_all_bounded();
    assert_eq!(stopped.cancelled, vec![second.runtime_id.clone()]);
    assert_eq!(stopped.awaited.len(), 2);
    let failed = registry
        .finish(
            &second.runtime_id,
            Err(AppError::ssh("TUNNEL-BIND-FAILED", "无法监听", "x", true)),
        )
        .unwrap();
    assert_eq!(failed.last_error.as_deref(), Some("TUNNEL-BIND-FAILED: 无法监听"));
    assert!(registry.finish("missing", Ok(())).is_none());
    assert_eq!(
        registry.set_running("missing", 1).unwrap_err().code,
        "TUNNEL-REGISTRY-UNAVAILABLE"
    );
}

#[test]
fn a_hundred_connections_have_a_slot() {
    let mut slots = ConnectionSlots::new();
    for _ in 0..100 {
        assert!(slots.try_acquire());
    }
    assert!(!slots.try_acquire());
    slots.release();
    assert!(slots.try_acquire());
}

#[test]
fn connections_go_where_the_profile_says() {
    match tunnel_role(&profile("p", TunnelKind::Local)) {
        TunnelRole::Bridge(target) => {
            assert_eq!((target.host.as_str(), target.port), ("db.internal", 5432));
        }
        other => panic!("nothing is carried: {other:?}"),
    }
    assert!(matches!(
        tunnel_role(&profile("p", TunnelKind::Dynamic)),
        TunnelRole::Socks
    ));
    assert!(matches!(
        tunnel_role(&profile("p", TunnelKind::Remote)),
        TunnelRole::Idle
    ));
    assert_eq!(remote_bound_port(80, 9000).unwrap(), 80);
    assert_eq!(remote_bound_port(0, 9000).unwrap(), 9000);
    assert_eq!(
        remote_bound_port(0, 70_000).unwrap_err().technical_details.as_deref(),
        Some("remote forwarding returned port 70000")
    );
}

#[test]
fn remote_forwards_are_found_by_address_or_port() {
    let forward = |host: &str, runtime: &str| RemoteForward {
        host: host.to_owned(),
        port: 8080,
        target: ForwardTarget {
            host: "localhost".to_owned(),
            port: 80,
        },
        runtime_id: runtime.to_owned(),
    };
    let mut table = RemoteForwardTable::new();
    table.insert(forward("0.0.0.0", "a"));
    table.insert(forward("127.0.0.1", "b"));
    assert_eq!(table.lookup("127.0.0.1", 8080).unwrap().runtime_id, "b");
    assert_eq!(table.lookup("::1", 8080).unwrap().runtime_id, "a");
    assert!(table.lookup("127.0.0.1", 8081).is_none());
    table.remove("0.0.0.0", 8080);
    assert_eq!(table.lookup("::1", 8080).unwrap().runtime_id, "b");
    table.insert(forward("127.0.0.1", "c"));
    assert_eq!(table.lookup("127.0.0.1", 8080).unwrap().runtime_id, "c");
}
