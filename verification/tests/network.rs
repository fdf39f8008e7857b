use terminalt::models::{ProxyRequest, ProxyType};
use terminalt::network::{
    base64_encode, connect_target, encode_socks_address, format_authority, http_connect_request,
    http_connect_response, next_header_step, HeaderStep, SocksAction, SocksClient,
};
use terminalt::socks_server::{ServerAction, SocksServer};

fn proxy(proxy_type: ProxyType) -> ProxyRequest {
    ProxyRequest {
        proxy_type,
        host: "127.0.0.1".to_owned(),
        port: 8080,
        username: None,
        password: None,
    }
}

#[test]
fn basic_credentials_use_rfc_4648_encoding() {
    assert_eq!(base64_encode(b"user:secret"), "dXNlcjpzZWNyZXQ=");
    assert_eq!(base64_encode(b"a:b"), "YTpi");
}

#[test]
fn base64_is_padded_to_its_length() {
    let bytes: Vec<u8> = (0..=255).collect();
    for n in 0..bytes.len() {
        let text = base64_encode(&bytes[..n]);
        let padding = (3 - n % 3) % 3;
        assert_eq!(text.len(), 4 * ((n + 2) / 3));
        let (body, end) = text.split_at(text.len() - padding);
        assert!(body.chars().all(|c| c.is_ascii_alphanumeric() || c == '+' || c == '/'));
        assert!(end.chars().all(|c| c == '='));
    }
    assert_ne!(base64_encode(b"a"), base64_encode(b"a\0"));
}

#[test]
fn padding_depends_on_the_length() {
    assert_eq!(base64_encode(b""), "");
    assert_eq!(base64_encode(b"f"), "Zg==");
    assert_eq!(base64_encode(b"fo"), "Zm8=");
    assert_eq!(base64_encode(b"foo"), "Zm9v");
    assert_eq!(base64_encode(&[0xfb, 0xff]), "+/8=");
}

#[test]
fn target_rejects_http_header_injection_before_connecting() {
    let error = match connect_target("example.test\r\nInjected: true", 22, None) {
        Ok(_) => panic!("header injection target was accepted"),
        Err(error) => error,
    };
    assert_eq!(error.code, "CONNECTION-INVALID");
}

#[test]
fn targets_are_dialled_through_their_proxy() {
    let dial = connect_target("example.test", 22, None).unwrap();
    assert_eq!((dial.host.as_str(), dial.port), ("example.test", 22));
    let http = proxy(ProxyType::Http);
    let dial = connect_target("example.test", 22, Some(&http)).unwrap();
    assert_eq!((dial.host.as_str(), dial.port), ("127.0.0.1", 8080));
}

#[test]
fn http_connect_accepts_success_and_sends_basic_auth() {
    let mut config = proxy(ProxyType::Http);
    config.username = Some("user".to_owned());
    config.password = Some("secret".to_owned());
    let request = http_connect_request("example.test", 443, &config);
    assert!(request.starts_with("CONNECT example.test:443 HTTP/1.1\r\n"));
    assert!(request.contains("Proxy-Authorization: Basic dXNlcjpzZWNyZXQ=\r\n"));
    assert!(request.ends_with("\r\n\r\n"));
    let header = b"HTTP/1.1 200 Connection Established\r\n\r\n".to_vec();
    assert!(matches!(next_header_step(&header), HeaderStep::Complete));
    assert!(http_connect_response(&header).is_ok());
}

#[test]
fn http_connect_maps_authentication_rejection() {
    let header = b"HTTP/1.1 407 Proxy Authentication Required\r\n\r\n".to_vec();
    assert_eq!(
        http_connect_response(&header).unwrap_err().code,
        "PROXY-AUTH-FAILED"
    );
    let header = b"HTTP/1.1 502 Bad Gateway\r\n\r\n".to_vec();
    assert_eq!(
        http_connect_response(&header).unwrap_err().code,
        "PROXY-CONNECT-FAILED"
    );
    assert_eq!(
        http_connect_response(&b"nonsense\r\n\r\n".to_vec())
            .unwrap_err()
            .code,
        "PROXY-PROTOCOL-FAILED"
    );
}

fn written(action: SocksAction) -> Vec<u8> {
    match action {
        SocksAction::Write(bytes) => bytes,
        other => panic!("nothing was written: {other:?}"),
    }
}

fn reads(action: SocksAction, count: usize) -> bool {
    matches!(action, SocksAction::Read(wanted) if wanted == count)
}

#[test]
fn socks5_supports_authenticated_domain_connect() {
    let mut config = proxy(ProxyType::Socks5);
    config.username = Some("user".to_owned());
    config.password = Some("secret".to_owned());
    let mut client = SocksClient::new("example.test", 443, &config);
    assert_eq!(written(client.action()), vec![5, 2, 0, 2]);
    client.advance(&Vec::new());
    assert!(reads(client.action(), 2));
    client.advance(&vec![5, 2]);
    assert_eq!(written(client.action()), b"\x01\x04user\x06secret");
    client.advance(&Vec::new());
    assert!(reads(client.action(), 2));
    client.advance(&vec![1, 0]);
    let request = written(client.action());
    assert_eq!(&request[..5], b"\x05\x01\x00\x03\x0c");
    assert_eq!(&request[5..17], b"example.test");
    assert_eq!(&request[17..], &443_u16.to_be_bytes());
    client.advance(&Vec::new());
    assert!(reads(client.action(), 4));
    client.advance(&vec![5, 0, 0, 1]);
    assert!(reads(client.action(), 6));
    client.advance(&vec![127, 0, 0, 1, 0, 80]);
    assert!(client.outcome().unwrap().is_ok());
}

#[test]
fn socks5_rejects_invalid_protocol_version() {
    let mut client = SocksClient::new("example.test", 22, &proxy(ProxyType::Socks5));
    assert_eq!(written(client.action()), vec![5, 1, 0]);
    client.advance(&Vec::new());
    client.advance(&vec![4, 0]);
    let error = client.outcome().unwrap().unwrap_err();
    assert_eq!(error.code, "PROXY-PROTOCOL-FAILED");
}

#[test]
fn socks_addresses_are_told_apart() {
    let mut bytes = Vec::new();
    encode_socks_address(&mut bytes, "10.0.0.1").unwrap();
    assert_eq!(bytes, vec![1, 10, 0, 0, 1]);
    let mut bytes = Vec::new();
    encode_socks_address(&mut bytes, "::1").unwrap();
    assert_eq!(bytes[0], 4);
    assert_eq!(bytes[16], 1);
    let mut bytes = Vec::new();
    encode_socks_address(&mut bytes, "host").unwrap();
    assert_eq!(bytes, vec![3, 4, b'h', b'o', b's', b't']);
    assert!(encode_socks_address(&mut Vec::new(), &"a".repeat(256)).is_err());
}

#[test]
fn authorities_put_brackets_around_addresses() {
    assert_eq!(format_authority("example.test", 22), "example.test:22");
    assert_eq!(format_authority("::1", 22), "[::1]:22");
}

fn answered(server: &mut SocksServer, bytes: &[u8]) {
    match server.action() {
        ServerAction::Read(count) => assert_eq!(count, bytes.len()),
        other => panic!("nothing was read: {other:?}"),
    }
    server.advance(&bytes.to_vec());
}

fn sent(server: &mut SocksServer) -> Vec<u8> {
    assert!(server.is_limited());
    let bytes = match server.action() {
        ServerAction::Write(bytes) => bytes,
        other => panic!("nothing was written: {other:?}"),
    };
    server.advance(&Vec::new());
    bytes
}

#[test]
fn dynamic_tunnels_serve_socks_requests() {
    let mut server = SocksServer::new();
    answered(&mut server, &[5, 2]);
    answered(&mut server, &[2, 0]);
    assert_eq!(sent(&mut server), vec![5, 0]);
    answered(&mut server, &[5, 1, 0, 3]);
    answered(&mut server, &[11]);
    answered(&mut server, b"db.internal");
    answered(&mut server, &[0x15, 0x38]);
    match server.action() {
        ServerAction::Open(target) => {
            assert_eq!(target.host, "db.internal");
            assert_eq!(target.port, 5432);
        }
        other => panic!("nothing was opened: {other:?}"),
    }
    server.advance(&Vec::new());
    assert_eq!(sent(&mut server), vec![5, 0, 0, 1, 0, 0, 0, 0, 0, 0]);
    assert!(matches!(server.action(), ServerAction::Forward));
    assert!(!server.is_limited());
    server.advance(&Vec::new());
    assert!(!server.is_limited());
    assert!(server.outcome().unwrap().is_ok());
}

#[test]
fn dynamic_tunnels_read_addresses() {
    for (kind, bytes, host) in [
        (1_u8, vec![10_u8, 1, 2, 3], "10.1.2.3"),
        (
            4,
            vec![0x20, 1, 0xd, 0xb8, 0, 0, 0, 0, 0, 0, 0, 0, 0, 0, 0, 1],
            "2001:db8::1",
        ),
    ] {
        let mut server = SocksServer::new();
        answered(&mut server, &[5, 1]);
        answered(&mut server, &[0]);
        sent(&mut server);
        answered(&mut server, &[5, 1, 0, kind]);
        answered(&mut server, &bytes);
        answered(&mut server, &[0, 80]);
        match server.action() {
            ServerAction::Open(target) => assert_eq!(target.host, host),
            other => panic!("nothing was opened: {other:?}"),
        }
    }
}

#[test]
fn dynamic_tunnels_refuse_what_they_do_not_serve() {
    let mut server = SocksServer::new();
    answered(&mut server, &[4, 1]);
    assert_eq!(
        server.outcome().unwrap().unwrap_err().code,
        "PROXY-PROTOCOL-FAILED"
    );

    let mut server = SocksServer::new();
    answered(&mut server, &[5, 1]);
    answered(&mut server, &[2]);
    assert_eq!(sent(&mut server), vec![5, 255]);
    assert!(server.outcome().unwrap().is_err());

    let mut server = SocksServer::new();
    answered(&mut server, &[5, 1]);
    answered(&mut server, &[0]);
    sent(&mut server);
    answered(&mut server, &[5, 2, 0, 1]);
    assert_eq!(sent(&mut server), vec![5, 7, 0, 1, 0, 0, 0, 0, 0, 0]);
    assert!(server.outcome().unwrap().is_err());

    let mut server = SocksServer::new();
    answered(&mut server, &[5, 1]);
    answered(&mut server, &[0]);
    sent(&mut server);
    answered(&mut server, &[5, 1, 0, 1]);
    answered(&mut server, &[127, 0, 0, 1]);
    answered(&mut server, &[0, 80]);
    server.refused("connection refused");
    assert_eq!(sent(&mut server), vec![5, 5, 0, 1, 0, 0, 0, 0, 0, 0]);
    assert_eq!(
        server.outcome().unwrap().unwrap_err().code,
        "TUNNEL-TARGET-FAILED"
    );
}
