use terminalt::commands::{
    check_named_request, close_mock_session, create_mock_session, failure_progress, health_check,
    inspect_ssh_host_key, list_remote_directory, mock_status, mock_welcome, operation_timeout,
    start_transfer, starting_progress, validate_remote_name, validate_remote_path,
    write_mock_session, Operation,
};
use terminalt::session::SessionRegistry;

#[test]
fn remote_names_reject_path_components() {
    assert!(validate_remote_name("日志 2026").is_ok());
    assert!(validate_remote_name("../secret").is_err());
    assert!(validate_remote_name("a\\b").is_err());
    assert!(validate_remote_name("..").is_err());
}

#[test]
fn mutating_operations_require_absolute_remote_paths() {
    assert!(validate_remote_path("/home/user").is_ok());
    assert!(validate_remote_path("relative/path").is_err());
    assert!(validate_remote_path("/bad\0path").is_err());
}

#[test]
fn names_and_paths_lose_the_space_around_them() {
    assert_eq!(validate_remote_name("  a b ").unwrap(), "a b");
    assert_eq!(validate_remote_path("\t/srv ").unwrap(), "/srv");
    assert!(validate_remote_name("   ").is_err());
    assert!(validate_remote_name(&"名".repeat(85)).is_ok());
    assert!(validate_remote_name(&"名".repeat(86)).is_err());
    assert!(validate_remote_path(&format!("/{}", "a".repeat(4096))).is_err());
    assert_eq!(
        check_named_request("/srv", "new").unwrap(),
        ("/srv".to_owned(), "new".to_owned())
    );
    assert_eq!(
        check_named_request("srv", "").unwrap_err().message,
        "名称不能为空、包含路径分隔符或超过 255 个字符"
    );
}

#[test]
fn directories_default_to_where_the_server_starts() {
    assert_eq!(list_remote_directory(None).unwrap(), ".");
    assert_eq!(list_remote_directory(Some("var".to_owned())).unwrap(), "var");
    assert!(list_remote_directory(Some("a\0".to_owned())).is_err());
}

#[test]
fn requests_are_checked() {
    assert!(start_transfer("a", "b").is_ok());
    assert!(start_transfer(" ", "b").is_err());
    assert!(start_transfer("a", "").is_err());
    assert_eq!(inspect_ssh_host_key(" host ", 5).unwrap(), "host");
    assert!(inspect_ssh_host_key("", 5).is_err());
    assert!(inspect_ssh_host_key("host", 4).is_err());
    assert!(inspect_ssh_host_key("host", 61).is_err());
}

#[test]
fn operations_report_what_they_do() {
    let steps = starting_progress(Operation::Connect, "op");
    assert_eq!(steps.len(), 2);
    assert_eq!(steps[1].message, "正在认证并创建远程 Shell");
    assert_eq!(starting_progress(Operation::Inspect, "op").len(), 1);
    assert!(failure_progress(Operation::Inspect, "op").is_none());
    assert_eq!(
        failure_progress(Operation::Reconnect, "op").unwrap().message,
        "重新连接失败"
    );
    assert_eq!(
        operation_timeout(Operation::Reconnect).message,
        "重新连接超时，请检查网络和服务器状态"
    );
    assert_eq!(operation_timeout(Operation::Test).code, "CONNECTION-TIMEOUT");
}

#[test]
fn mock_sessions_echo_their_input() {
    let mut sessions = SessionRegistry::new();
    let state = create_mock_session();
    assert_eq!(state.title, "架构验证会话");
    sessions.insert(state.id.clone());
    assert!(mock_status(&state.id).message.is_none());
    assert!(String::from_utf8(mock_welcome()).unwrap().contains("中文 / 🚀"));
    let echoed = write_mock_session(&sessions, &state.id, b"ls".to_vec()).unwrap();
    assert_eq!(echoed.len(), 1);
    assert_eq!(echoed[0].data, b"ls");
    let echoed = write_mock_session(&sessions, &state.id, b"\r".to_vec()).unwrap();
    assert_eq!(echoed.len(), 2);
    assert_eq!(echoed[1].data, b"\n\x1b[36mterminalt\x1b[0m $ ");
    assert!(write_mock_session(&sessions, "other", b"ls".to_vec()).is_err());
    let closed = close_mock_session(&mut sessions, &state.id).unwrap();
    assert_eq!(closed.message.as_deref(), Some("会话已关闭"));
    assert!(close_mock_session(&mut sessions, &state.id).is_err());
}

#[test]
fn the_application_says_that_it_is_up() {
    let health = health_check("0.1.0");
    assert_eq!(health.status, "ok");
    assert_eq!(health.protocol_version, 1);
    assert_eq!(health.app_version, "0.1.0");
}
