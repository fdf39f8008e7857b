use terminalt::authentication::{
    AuthenticationBroker, AuthenticationPromptAnswer, AuthenticationPromptResponse,
};
use terminalt::connection_pool::ConnectionPool;
use terminalt::credentials::{blob_size, decode_secret, delete_failed, read_failed, unavailable, wide, write_failed};
use terminalt::diagnostics::{cleanup, sanitize, DiagnosticLog, LogFile};
use terminalt::known_hosts::{HostKeyIdentity, KnownHostsStore};
use terminalt::models::{HostKeyAction, HostKeyStatus, WindowState};
use terminalt::session::SessionRegistry;
use terminalt::settings::{window_visible, AppSettings, MonitorArea, SettingsStore};

#[test]
fn validates_boundaries() {
    let mut settings = AppSettings {
        font_size: 9,
        ..AppSettings::default()
    };
    assert!(settings.validate().is_err());
    settings.font_size = 10;
    settings.connection_timeout_seconds = 60;
    assert!(settings.validate().is_ok());
    settings.line_height_bits = 2.5_f32.to_bits();
    assert_eq!(
        settings.validate().unwrap_err().message,
        "行高必须为 1.0～2.0"
    );
    settings.line_height_bits = f32::NAN.to_bits();
    assert!(settings.validate().is_err());
    settings.line_height_bits = 1.4_f32.to_bits();
    assert!(settings.validate().is_ok());
}

#[test]
fn settings_fall_back_to_the_defaults() {
    let store = SettingsStore::new("settings.json".to_owned());
    let loaded = store.load(None, "/downloads", true).unwrap();
    assert_eq!(loaded.default_download_directory, "/downloads");
    assert!(store.save(&loaded, true).is_ok());
    assert_eq!(
        store.save(&loaded, false).unwrap_err().message,
        "默认下载目录不存在或不可写"
    );
    let mut wrong = loaded;
    wrong.theme = "neon".to_owned();
    assert!(store.load(Some(wrong), "/downloads", true).is_err());
}

#[test]
fn windows_off_screen_are_not_restored() {
    let store = SettingsStore::new("settings.json".to_owned());
    let state = WindowState {
        x: 100,
        y: 100,
        width: 800,
        height: 600,
        maximized: false,
    };
    assert!(store.save_window(&state).is_ok());
    let screen = MonitorArea {
        x: 0,
        y: 0,
        width: 1920,
        height: 1080,
    };
    assert!(window_visible(&state, &vec![screen]));
    assert!(!window_visible(&state, &Vec::new()));
    let small = WindowState {
        width: 479,
        ..state
    };
    assert!(store.save_window(&small).is_err());
}

#[test]
fn sanitizing_twice_changes_nothing() {
    let once = sanitize("  user=alice\tPASSWORD=x\r\nmySecretKey  host=a ");
    assert_eq!(once, "user=alice [REDACTED] [REDACTED] host=a");
    assert_eq!(sanitize(&once), once);
    assert_eq!(sanitize("[REDACTED]"), "[REDACTED]");
    assert_eq!(sanitize(" \n "), "");
}

#[test]
fn removes_sensitive_fields_and_newlines() {
    let value = sanitize("password=hunter2\ncredentialRef=abc host=example.com");
    assert!(!value.contains("hunter2"));
    assert!(!value.contains("abc"));
    assert!(!value.contains('\n'));
    assert!(value.contains("host=example.com"));
}

#[test]
fn records_are_lines_without_secrets() {
    let log = DiagnosticLog::new("/logs".to_owned());
    assert_eq!(log.directory(), "/logs");
    let line = DiagnosticLog::record_at("T", "start", Some("CODE"), "secret=abc session=1");
    assert!(!line.contains("abc"));
    assert!(line.contains("session=1"));
    assert!(line.contains("CODE"));
    let (line, name) = log.record("start", None, "version=1");
    assert!(name.contains("terminalt"));
    assert!(line.contains("version=1"));
}

#[test]
fn old_logs_are_removed() {
    let day: u128 = 24 * 60 * 60 * 1_000_000_000;
    let now: u128 = 100 * day;
    let files = vec![
        LogFile {
            modified: 10 * day,
            size: 10,
        },
        LogFile {
            modified: now,
            size: 10,
        },
    ];
    assert_eq!(cleanup(&files, now), vec![0]);
}

fn identity(fingerprint: &str) -> HostKeyIdentity {
    HostKeyIdentity {
        algorithm: "ssh-ed25519".to_owned(),
        fingerprint_sha256: fingerprint.to_owned(),
        public_key: "ssh-ed25519 test".to_owned(),
    }
}

#[test]
fn unknown_key_becomes_trusted_after_approval() {
    let mut store = KnownHostsStore::new(Vec::new());
    let key = identity("SHA256:first");

    assert!(matches!(
        store.inspect("host", 22, &key).status,
        HostKeyStatus::Unknown
    ));
    store
        .approve("host", 22, &key, HostKeyAction::TrustNew)
        .unwrap();
    assert!(matches!(
        store.inspect("host", 22, &key).status,
        HostKeyStatus::Trusted
    ));
}

#[test]
fn changed_key_is_blocked_without_replace_action() {
    let mut store = KnownHostsStore::new(Vec::new());
    let first = identity("SHA256:first");
    let second = identity("SHA256:second");
    store
        .approve("host", 22, &first, HostKeyAction::TrustNew)
        .unwrap();

    let inspection = store.inspect("host", 22, &second);
    assert!(matches!(inspection.status, HostKeyStatus::Changed));
    assert_eq!(
        inspection.previous_fingerprint_sha256.as_deref(),
        Some("SHA256:first")
    );
    assert!(store
        .approve("host", 22, &second, HostKeyAction::TrustNew)
        .is_err());
    assert_eq!(store.list().len(), 1);
    store.delete("host", 22);
    assert!(store.list().is_empty());
}

#[test]
fn replaced_keys_are_trusted_and_can_be_cleared() {
    let mut store = KnownHostsStore::new(Vec::new());
    let first = identity("SHA256:first");
    let second = identity("SHA256:second");
    store
        .approve("host", 22, &first, HostKeyAction::TrustNew)
        .unwrap();
    store
        .approve("host", 22, &second, HostKeyAction::ReplaceChanged)
        .unwrap();
    assert_eq!(store.list()[0].fingerprint_sha256, "SHA256:second");
    assert_eq!(
        store
            .approve("host", 22, &second, HostKeyAction::TrustNew)
            .unwrap_err()
            .code,
        "HOST-KEY-DECISION-INVALID"
    );
    assert!(store
        .approve("host", 22, &second, HostKeyAction::UseTrusted)
        .is_ok());
    store.clear();
    assert!(store.list().is_empty());
}

#[test]
fn session_lifecycle_removes_entries() {
    let mut registry = SessionRegistry::new();
    registry.insert("session-1".to_owned());
    assert!(registry.contains("session-1"));

    registry.resize("session-1", 120, 40).unwrap();
    let size = registry.terminal_size("session-1").unwrap();
    assert_eq!((size.columns, size.rows), (120, 40));
    registry.close("session-1").unwrap();

    assert_eq!(registry.size(), 0);
    assert_eq!(
        registry.close("session-1").unwrap_err().code,
        "SESSION-NOT-FOUND"
    );
}

#[test]
fn close_all_clears_every_session() {
    let mut registry = SessionRegistry::new();
    for index in 0..3 {
        registry.insert(format!("session-{index}"));
    }

    assert_eq!(registry.close_all().len(), 3);
    assert_eq!(registry.size(), 0);
}

fn response(operation: &str, prompt: &str, answers: &[(&str, &str)]) -> AuthenticationPromptResponse {
    AuthenticationPromptResponse {
        operation_id: operation.to_owned(),
        prompt_id: prompt.to_owned(),
        answers: answers
            .iter()
            .map(|(id, value)| AuthenticationPromptAnswer {
                id: (*id).to_owned(),
                value: (*value).to_owned(),
            })
            .collect(),
    }
}

#[test]
fn response_is_bound_to_operation_and_ordered_prompt_ids() {
    let mut broker = AuthenticationBroker::new();
    let prompt = broker.register("operation-a", vec!["answer-0".to_owned()]);
    assert_eq!(
        broker
            .respond(response(
                "operation-a",
                &prompt,
                &[("answer-0", "one-time-secret")]
            ))
            .unwrap(),
        vec!["one-time-secret"]
    );
    assert_eq!(
        broker
            .respond(response("operation-a", &prompt, &[("answer-0", "again")]))
            .unwrap_err()
            .code,
        "AUTH-PROMPT-STALE"
    );
}

#[test]
fn cancellation_drops_pending_prompt() {
    let mut broker = AuthenticationBroker::new();
    let prompt = broker.register("operation-a", Vec::new());
    let other = broker.register("operation-b", Vec::new());
    broker.cancel_operation("operation-a");
    assert!(broker.respond(response("operation-a", &prompt, &[])).is_err());
    assert!(broker.respond(response("operation-b", &other, &[])).is_ok());
}

#[test]
fn mismatched_response_cannot_invalidate_the_real_prompt() {
    let mut broker = AuthenticationBroker::new();
    let prompt = broker.register("operation-a", vec!["answer-0".to_owned()]);
    assert!(broker
        .respond(response("operation-b", &prompt, &[("answer-0", "malicious")]))
        .is_err());
    assert!(broker
        .respond(response("operation-a", &prompt, &[("answer-1", "malicious")]))
        .is_err());
    assert_eq!(
        broker
            .respond(response("operation-a", &prompt, &[("answer-0", "valid")]))
            .unwrap(),
        vec!["valid"]
    );
}

#[test]
fn connection_pool_reuses_transport_until_the_last_lease_is_released() {
    let mut pool = ConnectionPool::new();
    assert_eq!(pool.acquire("saved-route"), None);
    let first = pool.open();
    assert_eq!(pool.adopt("saved-route".to_owned(), first), (first, false));
    assert_eq!(pool.acquire("saved-route"), Some(first));
    assert!(!pool.release(first));
    assert!(pool.release(first));
    assert!(pool.begin_shutdown(first));
    assert!(!pool.begin_shutdown(first));
    pool.end_shutdown(first);
    assert_eq!(pool.acquire("saved-route"), None);
}

#[test]
fn duplicate_connections_are_shut_down() {
    let mut pool = ConnectionPool::new();
    let first = pool.open();
    let second = pool.open();
    pool.adopt("saved-route".to_owned(), first);
    assert_eq!(pool.adopt("saved-route".to_owned(), second), (first, true));
    pool.invalidate("saved-route");
    assert_eq!(pool.acquire("saved-route"), None);
    let alone = pool.standalone();
    assert!(pool.release(alone));
    let third = pool.open();
    pool.adopt("other".to_owned(), third);
    assert_eq!(pool.shutdown_all_bounded(), vec![third]);
    assert_eq!(pool.acquire("other"), None);
}

#[test]
fn secrets_are_checked_before_they_are_stored() {
    assert_eq!(blob_size("临时测试秘密").unwrap(), 18);
    assert_eq!(blob_size("").unwrap(), 0);
    assert_eq!(wide("aé🚀"), vec![97, 233, 0xd83d, 0xde80, 0]);
    assert_eq!(
        decode_secret(&"临时测试秘密".as_bytes().to_vec()).unwrap(),
        "临时测试秘密"
    );
    assert!(decode_secret(&vec![0xff, 0xfe]).is_err());
    assert_eq!(unavailable().code, "CREDENTIAL-STORE-UNAVAILABLE");
    assert!(read_failed(1168).is_ok());
    assert!(delete_failed(1168).is_ok());
    assert!(read_failed(5).is_err());
    assert!(delete_failed(5).is_err());
    assert!(write_failed(5).technical_details.unwrap().contains('5'));
}
