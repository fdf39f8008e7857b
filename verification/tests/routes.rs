use terminalt::asset_files::document_schema_version;
use terminalt::connections::{validate_connection, KeyFile};
use terminalt::jump::validate_jump_hosts;
use terminalt::known_hosts::HostKeyRecord;
use terminalt::models::{
    AuthType, ConnectionProfile, ConnectionRequest, Duplicate, JumpHostRequest,
    KeepaliveSettings, ProxyRequest, ProxyType, RouteRequest, SaveConnectionRequest,
};
use terminalt::routes::{
    append_connection_pool_key, apply_keepalive, connection_setup_timeout,
    prepare_saved_connection, request_from_profile, saved_pool_key, shared_key,
};

fn request(name: &str) -> ConnectionRequest {
    ConnectionRequest {
        name: name.to_owned(),
        host: format!("{name}.example"),
        port: 22,
        username: "alice".to_owned(),
        auth_type: AuthType::Password,
        password: Some("must-not-appear".to_owned()),
        private_key_path: None,
        private_key_passphrase: None,
        agent_key_fingerprint: None,
        proxy: None,
        columns: 80,
        rows: 24,
        timeout_seconds: 15,
        keepalive_enabled: true,
        keepalive_seconds: 30,
    }
}

fn record(host: &str, fingerprint: &str) -> HostKeyRecord {
    HostKeyRecord {
        host: host.to_owned(),
        port: 22,
        algorithm: "ssh-ed25519".to_owned(),
        fingerprint_sha256: fingerprint.to_owned(),
        public_key: "ssh-ed25519 test".to_owned(),
        trusted_at: "2026-01-01T00:00:00Z".to_owned(),
    }
}

fn profile(id: &str, jumps: &[&str]) -> ConnectionProfile {
    ConnectionProfile {
        id: id.to_owned(),
        name: id.to_uppercase(),
        host: format!("{id}.example"),
        port: 22,
        username: "alice".to_owned(),
        auth_type: AuthType::Password,
        credential_ref: None,
        private_key_path: None,
        agent_key_fingerprint: None,
        proxy: None,
        jump_host_ids: jumps.iter().map(|jump| (*jump).to_owned()).collect(),
        group_id: "default".to_owned(),
        note: None,
        timeout_seconds: 15,
        last_connected_at: None,
        created_at: String::new(),
        updated_at: String::new(),
    }
}

#[test]
fn jumps_need_a_trusted_key() {
    let route = vec![request("jump"), request("target")];
    let error = prepare_saved_connection(&route, &Vec::new(), &None, "id").unwrap_err();
    assert_eq!(error.code, "JUMP-HOST-FAILED");
    assert_eq!(error.message, "请先单独连接并信任跳板“jump”的服务器指纹");
    let keepalive = Some(KeepaliveSettings {
        enabled: false,
        seconds: 99,
    });
    let records = vec![
        record("jump.example", "SHA256:old"),
        record("jump.example", "SHA256:new"),
    ];
    let prepared = prepare_saved_connection(&route, &records, &keepalive, "id").unwrap();
    assert_eq!(prepared.jump_hosts.len(), 1);
    assert_eq!(prepared.jump_hosts[0].expected_fingerprint, "SHA256:new");
    assert!(!prepared.target.keepalive_enabled);
    assert_eq!(prepared.jump_hosts[0].connection.keepalive_seconds, 99);
    assert!(prepare_saved_connection(&Vec::new(), &records, &None, "id").is_err());
}

#[test]
fn pool_keys_hold_what_decides_and_no_secret() {
    let mut with_proxy = request("target");
    with_proxy.proxy = Some(ProxyRequest {
        proxy_type: ProxyType::Socks5,
        host: "proxy\"\tx".to_owned(),
        port: 1080,
        username: Some("user".to_owned()),
        password: Some("must-not-appear".to_owned()),
    });
    let mut key = String::new();
    append_connection_pool_key(&mut key, &with_proxy);
    assert_eq!(
        key,
        ":target.example:22:alice:Password:Some((Socks5, \"proxy\\\"\\tx\", 1080, Some(\"user\"))):true:30"
    );
    with_proxy.proxy.as_mut().unwrap().username = None;
    let mut other = String::new();
    append_connection_pool_key(&mut other, &with_proxy);
    assert_ne!(other, key);
    with_proxy.proxy.as_mut().unwrap().host = "\u{200b}".to_owned();
    let mut other = String::new();
    append_connection_pool_key(&mut other, &with_proxy);
    assert_eq!(
        other,
        ":target.example:22:alice:Password:Some((Socks5, \"\\u{200b}\", 1080, None)):true:30"
    );
    let records = vec![record("jump.example", "SHA256:jump")];
    let route = vec![request("jump"), request("target")];
    let prepared = prepare_saved_connection(&route, &records, &None, "id").unwrap();
    let key = saved_pool_key("id", &prepared, "SHA256:target");
    assert_eq!(
        key,
        "saved:id:target-key=SHA256:target:jump.example:22:alice:Password:None:true:30:host-key=SHA256:jump:target.example:22:alice:Password:None:true:30"
    );
    assert!(!key.contains("must-not-appear"));
    assert_ne!(key, saved_pool_key("id", &prepared, "SHA256:other"));
    assert_eq!(connection_setup_timeout(&prepared), Some(30));
}

fn other_fields(base: &ConnectionRequest) -> Vec<ConnectionRequest> {
    let mut all = Vec::new();
    let mut other = |change: &dyn Fn(&mut ConnectionRequest)| {
        let mut changed = base.duplicate();
        change(&mut changed);
        all.push(changed);
    };
    other(&|request| request.host = "other.example".to_owned());
    other(&|request| request.port = 2222);
    other(&|request| request.username = "bob".to_owned());
    other(&|request| request.auth_type = AuthType::PrivateKey);
    other(&|request| request.private_key_path = Some("/home/a/id_rsa".to_owned()));
    other(&|request| request.private_key_path = Some("/home/a/id_ed25519".to_owned()));
    other(&|request| request.agent_key_fingerprint = Some("SHA256:agent".to_owned()));
    other(&|request| request.keepalive_enabled = false);
    other(&|request| request.keepalive_seconds = 31);
    for (proxy_type, host, port, username) in [
        (ProxyType::Http, "proxy", 1080, None),
        (ProxyType::Socks5, "proxy", 1080, None),
        (ProxyType::Socks5, "proxy2", 1080, None),
        (ProxyType::Socks5, "proxy", 1081, None),
        (ProxyType::Socks5, "proxy", 1080, Some("user")),
        (ProxyType::Socks5, "proxy", 1080, Some("user\\")),
    ] {
        other(&|request| {
            request.proxy = Some(ProxyRequest {
                proxy_type,
                host: host.to_owned(),
                port,
                username: username.map(str::to_owned),
                password: None,
            })
        });
    }
    all
}

#[test]
fn pool_keys_tell_connections_apart() {
    let jump = |connection: ConnectionRequest, fingerprint: &str| JumpHostRequest {
        connection,
        expected_fingerprint: fingerprint.to_owned(),
    };
    let mut routes = vec![RouteRequest {
        target: request("target"),
        jump_hosts: vec![jump(request("jump"), "SHA256:jump")],
    }];
    for target in other_fields(&request("target")) {
        routes.push(RouteRequest {
            target,
            jump_hosts: vec![jump(request("jump"), "SHA256:jump")],
        });
    }
    for connection in other_fields(&request("jump")) {
        routes.push(RouteRequest {
            target: request("target"),
            jump_hosts: vec![jump(connection, "SHA256:jump")],
        });
    }
    routes.push(RouteRequest {
        target: request("target"),
        jump_hosts: vec![jump(request("jump"), "SHA256:other")],
    });
    let mut keys: Vec<String> = routes
        .iter()
        .map(|route| saved_pool_key("id", route, "SHA256:target"))
        .collect();
    keys.push(saved_pool_key("id", &routes[0], "SHA256:target2"));
    let count = keys.len();
    keys.sort();
    keys.dedup();
    assert_eq!(keys.len(), count);
}

#[test]
fn connections_with_a_temporary_secret_are_not_shared() {
    let route = RouteRequest {
        target: request("target"),
        jump_hosts: Vec::new(),
    };
    assert_eq!(shared_key("id", &route, "SHA256:target", true), None);
    assert_eq!(
        shared_key("id", &route, "SHA256:target", false),
        Some(saved_pool_key("id", &route, "SHA256:target"))
    );
}

#[test]
fn keepalive_settings_are_applied() {
    let mut target = request("target");
    apply_keepalive(&mut target, &None);
    assert_eq!(target.keepalive_seconds, 30);
    apply_keepalive(
        &mut target,
        &Some(KeepaliveSettings {
            enabled: true,
            seconds: 5,
        }),
    );
    assert_eq!(target.keepalive_seconds, 5);
}

#[test]
fn missing_secrets_are_reported() {
    let saved = profile("a", &[]);
    assert_eq!(
        request_from_profile(&saved, None, None, false).unwrap_err().code,
        "CREDENTIAL-MISSING"
    );
    assert_eq!(
        request_from_profile(&saved, None, None, true).unwrap_err().code,
        "JUMP-HOST-FAILED"
    );
    let request =
        request_from_profile(&saved, Some("secret".to_owned()), None, false).unwrap();
    assert_eq!(request.password.as_deref(), Some("secret"));
    assert_eq!((request.columns, request.rows), (80, 24));
}

#[test]
fn jump_hosts_are_checked() {
    let connections = vec![profile("a", &[]), profile("b", &["a"]), profile("c", &["b"])];
    let jumps = |ids: &[&str]| ids.iter().map(|id| (*id).to_owned()).collect::<Vec<_>>();
    assert!(validate_jump_hosts(&connections, "c", &jumps(&["b"])).is_ok());
    assert_eq!(
        validate_jump_hosts(&connections, "a", &jumps(&["c"]))
            .unwrap_err()
            .code,
        "JUMP-HOST-CYCLE"
    );
    assert!(validate_jump_hosts(&connections, "a", &jumps(&["a"])).is_err());
    assert!(validate_jump_hosts(&connections, "a", &jumps(&["missing"])).is_err());
}

#[test]
fn the_version_is_read_from_the_text() {
    assert_eq!(
        document_schema_version(&b"{\"schemaVersion\": 2, \"groups\": []}".to_vec()),
        Some(2)
    );
    assert_eq!(document_schema_version(&b"{}".to_vec()), None);
    assert_eq!(document_schema_version(&b"{ interrupted".to_vec()), None);
}

fn save(auth_type: AuthType) -> SaveConnectionRequest {
    SaveConnectionRequest {
        id: None,
        name: "Production".to_owned(),
        host: "server.example".to_owned(),
        port: 22,
        username: "alice".to_owned(),
        auth_type,
        secret: None,
        remember_credential: false,
        private_key_path: Some("/home/a/id".to_owned()),
        agent_key_fingerprint: None,
        proxy: None,
        jump_host_ids: Vec::new(),
        group_id: "default".to_owned(),
        note: None,
        timeout_seconds: 15,
    }
}

#[test]
fn connections_are_checked_before_they_are_saved() {
    let good = save(AuthType::PrivateKey);
    assert!(validate_connection(&good, &KeyFile::File).is_ok());
    assert!(validate_connection(&good, &KeyFile::NotAFile).is_err());
    assert!(validate_connection(&good, &KeyFile::Unreadable("denied".to_owned())).is_err());
    let mut nameless = save(AuthType::Password);
    nameless.name = " ".to_owned();
    assert!(validate_connection(&nameless, &KeyFile::File).is_err());
    let mut spaced = save(AuthType::Password);
    spaced.host = "  ".to_owned();
    assert!(validate_connection(&spaced, &KeyFile::File).is_err());
    let mut hasty = save(AuthType::Password);
    hasty.timeout_seconds = 4;
    assert!(validate_connection(&hasty, &KeyFile::File).is_err());
}
