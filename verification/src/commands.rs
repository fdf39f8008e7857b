//! What the user interface asks for: which requests are accepted, and what it is
//! told meanwhile.

#![verifier::loop_isolation(false)]

use crate::error::{self, AppError, ErrorView};
use crate::models::{
    ConnectionProgressPayload, ConnectionProgressPayloadView, HealthResponse, HealthResponseView,
    SessionOutputPayload, SessionOutputPayloadView, SessionState, SessionStateView, SessionStatus,
    SessionStatusPayload, SessionStatusPayloadView,
};
use crate::network::append_bytes;
use crate::outside::{self, new_id, now};
use crate::paths;
use crate::session::{self, SessionRegistry};
use crate::ssh_errors::{self, connection_timeout};
use crate::ssh_route::started_session_at;
use crate::terminal::disconnected_payload;
use crate::text::{self, byte_len, char_len, contains_char, same, starts_with, trimmed};
use vstd::prelude::*;
use vstd::utf8::*;

verus! {

/// The version of the protocol that the user interface speaks.
pub const IPC_PROTOCOL_VERSION: u16 = 1;

/// Says that the application is up.
pub fn health_check(app_version: &'static str) -> (r: HealthResponse)
    ensures
        r@ == (HealthResponseView {
            status: "ok"@,
            protocol_version: IPC_PROTOCOL_VERSION,
            app_version: app_version@,
        }),
{
    HealthResponse { status: "ok", protocol_version: IPC_PROTOCOL_VERSION, app_version }
}

// ---------------------------------------------------------------------------
// Remote files
// ---------------------------------------------------------------------------

/// Whether a text is a name in a remote directory.
pub open spec fn is_remote_name(name: Seq<char>) -> bool {
    &&& name.len() > 0
    &&& name != "."@
    &&& name != ".."@
    &&& !name.contains('/')
    &&& !name.contains('\\')
    &&& !name.contains('\0')
    &&& text::utf8_len(name) <= 255
}

/// The name that is meant, or why it is not accepted.
pub open spec fn remote_name(name: Seq<char>) -> Result<Seq<char>, ErrorView> {
    if is_remote_name(text::trim(name)) {
        Ok(text::trim(name))
    } else {
        Err(error::validation_error("名称不能为空、包含路径分隔符或超过 255 个字符"@))
    }
}

/// Checks a name in a remote directory, and takes away the white space around it.
pub fn validate_remote_name(name: &str) -> (r: Result<String, AppError>)
    ensures
        error::ends_as(r, remote_name(name@)),
{
    let name = trimmed(name);
    if char_len(name.as_str()) == 0 || same(name.as_str(), ".") || same(name.as_str(), "..")
        || contains_char(name.as_str(), '/') || contains_char(name.as_str(), '\\') || contains_char(
        name.as_str(),
        '\0',
    ) || byte_len(name.as_str()) > 255 {
        return Err(
            AppError::validation("名称不能为空、包含路径分隔符或超过 255 个字符"),
        );
    }
    Ok(name)
}

/// The absolute path that is meant, or why it is not accepted.
pub open spec fn remote_path(path: Seq<char>) -> Result<Seq<char>, ErrorView> {
    let path = text::trim(path);
    if "/"@.is_prefix_of(path) && text::utf8_len(path) <= 4096 && !path.contains('\0') {
        Ok(path)
    } else {
        Err(error::validation_error("远端路径无效"@))
    }
}

/// Checks an absolute remote path, and takes away the white space around it.
pub fn validate_remote_path(path: &str) -> (r: Result<String, AppError>)
    ensures
        error::ends_as(r, remote_path(path@)),
{
    let path = trimmed(path);
    if !starts_with(path.as_str(), "/") || byte_len(path.as_str()) > 4096 || contains_char(
        path.as_str(),
        '\0',
    ) {
        return Err(AppError::validation("远端路径无效"));
    }
    Ok(path)
}

/// The directory that is listed, or why it is not accepted.
pub open spec fn directory_path(path: Option<Seq<char>>) -> Result<Seq<char>, ErrorView> {
    let path = match path {
        Some(path) => path,
        None => "."@,
    };
    if text::utf8_len(path) > 4096 || path.contains('\0') {
        Err(error::validation_error("远端路径无效"@))
    } else {
        Ok(path)
    }
}

/// The directory that is listed: the one that is asked for, or the one that the
/// server starts in.
pub fn list_remote_directory(path: Option<String>) -> (r: Result<String, AppError>)
    ensures
        error::ends_as(r, directory_path(path.deep_view())),
{
    let path = match path {
        Some(path) => path,
        None => ".".to_owned(),
    };
    if byte_len(path.as_str()) > 4096 || contains_char(path.as_str(), '\0') {
        return Err(AppError::validation("远端路径无效"));
    }
    Ok(path)
}

/// What is wrong with a request to make a directory or to rename an entry: the name
/// is looked at first.
pub open spec fn named_request(path: Seq<char>, name: Seq<char>) -> Result<
    (Seq<char>, Seq<char>),
    ErrorView,
> {
    match remote_name(name) {
        Err(error) => Err(error),
        Ok(name) => match remote_path(path) {
            Err(error) => Err(error),
            Ok(path) => Ok((path, name)),
        },
    }
}

/// Checks a request to make a directory or to rename an entry, and gives the path
/// and the name that are meant.
pub fn check_named_request(path: &str, name: &str) -> (r: Result<(String, String), AppError>)
    ensures
        error::ends_as(r, named_request(path@, name@)),
{
    match validate_remote_name(name) {
        Err(error) => Err(error),
        Ok(name) => match validate_remote_path(path) {
            Err(error) => Err(error),
            Ok(path) => Ok((path, name)),
        },
    }
}

/// What is wrong with a request to transfer.
pub open spec fn transfer_request_fault(source: Seq<char>, target: Seq<char>) -> Option<ErrorView> {
    if text::trim(source).len() == 0 || text::trim(target).len() == 0 {
        Some(error::validation_error("传输源和目标不能为空"@))
    } else {
        None
    }
}

/// Checks a request to transfer.
pub fn start_transfer(source: &str, target: &str) -> (r: Result<(), AppError>)
    ensures
        error::error_of(r) == transfer_request_fault(source@, target@),
{
    if char_len(trimmed(source).as_str()) == 0 || char_len(trimmed(target).as_str()) == 0 {
        return Err(AppError::validation("传输源和目标不能为空"));
    }
    Ok(())
}

/// A name that is accepted names something in its directory: joined to a directory
/// it gives a path that lies right in that directory.
pub proof fn accepted_names_stay_in_directory(directory: Seq<char>, name: Seq<char>)
    requires
        remote_name(name) is Ok,
        remote_path(directory) is Ok,
    ensures
        ({
            let place = remote_path(directory)->Ok_0;
            let entry = remote_name(name)->Ok_0;
            paths::parent_path(paths::joined_path(place, entry)) == Some(
                if text::trim_end_of(place, '/').len() == 0 {
                    "/"@
                } else {
                    text::trim_end_of(place, '/')
                },
            )
        }),
{
    let place = remote_path(directory)->Ok_0;
    let entry = remote_name(name)->Ok_0;
    paths::parent_of_joined(place, entry);
}

// ---------------------------------------------------------------------------
// Connections
// ---------------------------------------------------------------------------

/// The host whose key is asked for, or why the request is not accepted.
pub open spec fn inspected_host(host: Seq<char>, timeout_seconds: u64) -> Result<
    Seq<char>,
    ErrorView,
> {
    if text::trim(host).len() == 0 {
        Err(error::validation_error("请输入主机地址"@))
    } else if timeout_seconds < 5 || timeout_seconds > 60 {
        Err(error::validation_error("连接超时必须为 5～60 秒"@))
    } else {
        Ok(text::trim(host))
    }
}

/// Checks a request for the key of a host, and takes away the white space around
/// the host.
pub fn inspect_ssh_host_key(host: &str, timeout_seconds: u64) -> (r: Result<String, AppError>)
    ensures
        error::ends_as(r, inspected_host(host@, timeout_seconds)),
{
    let host = trimmed(host);
    if char_len(host.as_str()) == 0 {
        return Err(AppError::validation("请输入主机地址"));
    }
    if timeout_seconds < 5 || timeout_seconds > 60 {
        return Err(AppError::validation("连接超时必须为 5～60 秒"));
    }
    Ok(host)
}

/// What the user asked for.
#[derive(Clone, Copy, Debug, PartialEq, Eq, Structural)]
pub enum Operation {
    /// The key of a host.
    Inspect,
    /// The key of the host of a saved connection.
    InspectSaved,
    /// A test of a connection.
    Test,
    /// A session.
    Connect,
    /// A session in the place of one that is over.
    Reconnect,
}

/// A step in setting up a connection, as the user is told.
pub open spec fn progress_of(
    operation_id: Seq<char>,
    status: SessionStatus,
    message: Seq<char>,
) -> ConnectionProgressPayloadView {
    ConnectionProgressPayloadView { operation_id, status, message }
}

/// A step in setting up a connection, as the user is told.
pub fn progress(operation_id: &str, status: SessionStatus, message: &str) -> (r:
    ConnectionProgressPayload)
    ensures
        r@ == progress_of(operation_id@, status, message@),
{
    ConnectionProgressPayload {
        operation_id: operation_id.to_owned(),
        status,
        message: message.to_owned(),
    }
}

/// What the user is told when an operation begins.
pub open spec fn progress_at_start(operation: Operation, id: Seq<char>) -> Seq<
    ConnectionProgressPayloadView,
> {
    match operation {
        Operation::Inspect => seq![
            progress_of(id, SessionStatus::HostKeyCheck, "正在获取服务器指纹"@),
        ],
        Operation::InspectSaved => seq![
            progress_of(id, SessionStatus::HostKeyCheck, "正在验证网络路径并获取目标指纹"@),
        ],
        Operation::Test => seq![
            progress_of(id, SessionStatus::Connecting, "正在建立 SSH 连接"@),
            progress_of(id, SessionStatus::Authenticating, "正在验证认证信息"@),
        ],
        Operation::Connect => seq![
            progress_of(id, SessionStatus::Connecting, "正在建立 SSH 连接"@),
            progress_of(id, SessionStatus::Authenticating, "正在认证并创建远程 Shell"@),
        ],
        Operation::Reconnect => seq![
            progress_of(id, SessionStatus::Connecting, "正在建立新的 SSH 会话"@),
        ],
    }
}

/// What the user is told when an operation begins.
pub fn starting_progress(operation: Operation, operation_id: &str) -> (r: Vec<
    ConnectionProgressPayload,
>)
    ensures
        r.deep_view() == progress_at_start(operation, operation_id@),
{
    let mut r: Vec<ConnectionProgressPayload> = Vec::new();
    match operation {
        Operation::Inspect => {
            r.push(progress(operation_id, SessionStatus::HostKeyCheck, "正在获取服务器指纹"));
        },
        Operation::InspectSaved => {
            r.push(
                progress(
                    operation_id,
                    SessionStatus::HostKeyCheck,
                    "正在验证网络路径并获取目标指纹",
                ),
            );
        },
        Operation::Test => {
            r.push(progress(operation_id, SessionStatus::Connecting, "正在建立 SSH 连接"));
            r.push(progress(operation_id, SessionStatus::Authenticating, "正在验证认证信息"));
        },
        Operation::Connect => {
            r.push(progress(operation_id, SessionStatus::Connecting, "正在建立 SSH 连接"));
            r.push(
                progress(
                    operation_id,
                    SessionStatus::Authenticating,
                    "正在认证并创建远程 Shell",
                ),
            );
        },
        Operation::Reconnect => {
            r.push(progress(operation_id, SessionStatus::Connecting, "正在建立新的 SSH 会话"));
        },
    }
    assert(r.deep_view() =~= progress_at_start(operation, operation_id@));
    r
}

/// What the user is told when an operation fails, besides its error.
pub open spec fn progress_at_failure(operation: Operation, id: Seq<char>) -> Option<
    ConnectionProgressPayloadView,
> {
    match operation {
        Operation::Inspect => None,
        Operation::InspectSaved => None,
        Operation::Test => Some(progress_of(id, SessionStatus::Failed, "连接测试失败"@)),
        Operation::Connect => Some(progress_of(id, SessionStatus::Failed, "SSH 会话建立失败"@)),
        Operation::Reconnect => Some(progress_of(id, SessionStatus::Failed, "重新连接失败"@)),
    }
}

/// What the user is told when an operation fails, besides its error.
pub fn failure_progress(operation: Operation, operation_id: &str) -> (r: Option<
    ConnectionProgressPayload,
>)
    ensures
        r.deep_view() == progress_at_failure(operation, operation_id@),
{
    match operation {
        Operation::Inspect => None,
        Operation::InspectSaved => None,
        Operation::Test => Some(progress(operation_id, SessionStatus::Failed, "连接测试失败")),
        Operation::Connect => Some(
            progress(operation_id, SessionStatus::Failed, "SSH 会话建立失败"),
        ),
        Operation::Reconnect => Some(
            progress(operation_id, SessionStatus::Failed, "重新连接失败"),
        ),
    }
}

/// The error for an operation that took too long.
pub open spec fn operation_timeout_error(operation: Operation) -> ErrorView {
    match operation {
        Operation::Connect => error::ssh_error(
            "CONNECTION-TIMEOUT"@,
            "连接超时，请检查主机、端口和防火墙"@,
            "SSH session setup exceeded the configured timeout"@,
            true,
        ),
        Operation::Reconnect => error::ssh_error(
            "CONNECTION-TIMEOUT"@,
            "重新连接超时，请检查网络和服务器状态"@,
            "SSH reconnect setup exceeded the configured timeout"@,
            true,
        ),
        _ => ssh_errors::connection_timeout_error(),
    }
}

/// The error for an operation that took too long.
pub fn operation_timeout(operation: Operation) -> (r: AppError)
    ensures
        r@ == operation_timeout_error(operation),
{
    match operation {
        Operation::Connect => AppError::ssh(
            "CONNECTION-TIMEOUT",
            "连接超时，请检查主机、端口和防火墙",
            "SSH session setup exceeded the configured timeout",
            true,
        ),
        Operation::Reconnect => AppError::ssh(
            "CONNECTION-TIMEOUT",
            "重新连接超时，请检查网络和服务器状态",
            "SSH reconnect setup exceeded the configured timeout",
            true,
        ),
        Operation::Inspect => connection_timeout(),
        Operation::InspectSaved => connection_timeout(),
        Operation::Test => connection_timeout(),
    }
}

// ---------------------------------------------------------------------------
// Mock sessions
// ---------------------------------------------------------------------------

/// A mock session, as it is reported.
pub fn create_mock_session_at(session_id: String, now: String) -> (r: SessionState)
    ensures
        r@ == (SessionStateView {
            id: session_id@,
            title: "架构验证会话"@,
            status: SessionStatus::Connected,
            started_at: now@,
        }),
{
    started_session_at(session_id, "架构验证会话", now)
}

/// A mock session, as it is reported.
pub fn create_mock_session() -> (r: SessionState)
    ensures
        outside::is_id_text(r@.id),
        r@.title == "架构验证会话"@,
        r@.status == SessionStatus::Connected,
{
    create_mock_session_at(new_id(), now())
}

/// What a mock session reports when it is up.
pub fn mock_status(session_id: &str) -> (r: SessionStatusPayload)
    ensures
        r@ == (SessionStatusPayloadView {
            session_id: session_id@,
            status: SessionStatus::Connected,
            message: None,
        }),
{
    SessionStatusPayload {
        session_id: session_id.to_owned(),
        status: SessionStatus::Connected,
        message: None,
    }
}

/// The bytes of a text.
fn bytes_of(text: &str) -> (r: Vec<u8>)
    ensures
        r@ == encode_utf8(text@),
{
    let mut r: Vec<u8> = Vec::new();
    append_bytes(&mut r, text.as_bytes());
    assert(r@ =~= encode_utf8(text@));
    r
}

/// What a mock session prints when it is up.
pub fn mock_welcome() -> (r: Vec<u8>)
    ensures
        r@ == encode_utf8(
            "\u{1b}[38;2;50;215;168mTerminalT mock session ready.\u{1b}[0m\r\nIPC protocol v1 · UTF-8: 中文 / 🚀\r\n\u{1b}[36mterminalt\u{1b}[0m $ "@,
        ),
{
    bytes_of(
        "\u{1b}[38;2;50;215;168mTerminalT mock session ready.\u{1b}[0m\r\nIPC protocol v1 · UTF-8: 中文 / 🚀\r\n\u{1b}[36mterminalt\u{1b}[0m $ ",
    )
}

/// Output of a session, as it is reported.
pub open spec fn output_of(session_id: Seq<char>, data: Seq<u8>) -> SessionOutputPayloadView {
    SessionOutputPayloadView { session_id, data }
}

/// Output of a session, as it is reported.
pub fn output_payload(session_id: &str, data: Vec<u8>) -> (r: SessionOutputPayload)
    ensures
        r@ == output_of(session_id@, data@),
{
    let r = SessionOutputPayload { session_id: session_id.to_owned(), data };
    assert(r@.data =~= data@);
    r
}

/// What a mock session prints for its input: the input, and a new prompt where the
/// input is a return.
pub open spec fn mock_output(session_id: Seq<char>, data: Seq<u8>) -> Seq<SessionOutputPayloadView> {
    if data == seq![13u8] {
        seq![
            output_of(session_id, data),
            output_of(session_id, encode_utf8("\n\u{1b}[36mterminalt\u{1b}[0m $ "@)),
        ]
    } else {
        seq![output_of(session_id, data)]
    }
}

/// What a mock session prints for its input.
pub fn write_mock_session(sessions: &SessionRegistry, session_id: &str, data: Vec<u8>) -> (r: Result<
    Vec<SessionOutputPayload>,
    AppError,
>)
    requires
        sessions.wf(),
    ensures
        error::ends_as(
            r,
            if sessions@.contains_key(session_id@) {
                Ok(mock_output(session_id@, data@))
            } else {
                Err(error::session_not_found_error(session_id@))
            },
        ),
{
    if !sessions.contains(session_id) {
        return Err(AppError::session_not_found(session_id));
    }
    let is_return = data.len() == 1 && data[0] == 13;
    let ghost typed = data@;
    assert(is_return <==> typed =~= seq![13u8]);
    let mut r: Vec<SessionOutputPayload> = Vec::new();
    r.push(output_payload(session_id, data));
    if is_return {
        r.push(output_payload(session_id, bytes_of("\n\u{1b}[36mterminalt\u{1b}[0m $ ")));
    }
    assert(r.deep_view() =~= mock_output(session_id@, typed));
    Ok(r)
}

/// Closes a mock session, and gives what is reported.
pub fn close_mock_session(sessions: &mut SessionRegistry, session_id: &str) -> (r: Result<
    SessionStatusPayload,
    AppError,
>)
    requires
        old(sessions).wf(),
    ensures
        final(sessions).wf(),
        error::changes_as(
            old(sessions)@,
            final(sessions)@,
            r,
            match session::closed(old(sessions)@, session_id@) {
                Ok((after, _)) => Ok(
                    (
                        after,
                        SessionStatusPayloadView {
                            session_id: session_id@,
                            status: SessionStatus::Disconnected,
                            message: Some("会话已关闭"@),
                        },
                    ),
                ),
                Err(error) => Err(error),
            },
        ),
{
    match sessions.close(session_id) {
        Err(error) => Err(error),
        Ok(()) => Ok(disconnected_payload(session_id, "会话已关闭")),
    }
}

/// A name is accepted if and only if, without the blanks around it, it names an entry of a
/// directory: it is not empty, no dot or two dots, holds neither slash nor zero, and has at
/// most 255 bytes. What is used is the name without the blanks.
pub proof fn plain_names_are_accepted(name: Seq<char>)
    ensures
        ({
            let plain = text::trim(name);
            match remote_name(name) {
                Ok(used) => {
                    &&& used == plain
                    &&& used.len() > 0
                    &&& used != "."@
                    &&& used != ".."@
                    &&& !used.contains('/')
                    &&& !used.contains('\\')
                    &&& !used.contains('\0')
                    &&& text::utf8_len(used) <= 255
                },
                Err(error) => error.code == "CONNECTION-INVALID"@ && (plain.len() == 0 || plain
                    == "."@ || plain == ".."@ || plain.contains('/') || plain.contains('\\')
                    || plain.contains('\0') || text::utf8_len(plain) > 255),
            }
        }),
{
}

/// A remote path is accepted if and only if, without the blanks around it, it begins with
/// a slash, has at most 4096 bytes and holds no zero; a directory may also be left out, and
/// is then the one where the server begins.
pub proof fn absolute_paths_are_accepted(path: Seq<char>)
    ensures
        match remote_path(path) {
            Ok(used) => used == text::trim(path) && used.len() > 0 && used[0] == '/'
                && text::utf8_len(used) <= 4096 && !used.contains('\0'),
            Err(error) => {
                let used = text::trim(path);
                used.len() == 0 || used[0] != '/' || text::utf8_len(used) > 4096 || used.contains(
                    '\0',
                )
            },
        },
        directory_path(Some(path)) is Ok <==> text::utf8_len(path) <= 4096 && !path.contains('\0'),
        directory_path(Some(path)) matches Ok(used) ==> used == path,
        directory_path(None) matches Ok(used) ==> used == "."@,
{
    reveal_strlit("/");
    let used = text::trim(path);
    if used.len() > 0 && used[0] == '/' {
        assert(used.take(1) =~= "/"@);
        assert("/"@.is_prefix_of(used));
    }
    if "/"@.is_prefix_of(used) {
        assert(used.take(1)[0] == "/"@[0]);
    }
}

/// A request that names an entry is accepted if and only if both its path and its name are,
/// and is carried out with both.
pub proof fn named_requests_are_checked(path: Seq<char>, name: Seq<char>)
    ensures
        named_request(path, name) is Ok <==> remote_path(path) is Ok && remote_name(name) is Ok,
        named_request(path, name) matches Ok((a, b)) ==> a == text::trim(path) && b == text::trim(
            name,
        ),
{
}

/// A transfer needs a source and a target that are not blank, and a server whose key is
/// looked at a host and a time from 5 to 60 seconds.
pub proof fn blank_requests_are_refused(
    source: Seq<char>,
    target: Seq<char>,
    timeout_seconds: u64,
)
    ensures
        transfer_request_fault(source, target) is None <==> text::trim(source).len() > 0
            && text::trim(target).len() > 0,
        match inspected_host(source, timeout_seconds) {
            Ok(host) => host == text::trim(source) && host.len() > 0 && 5 <= timeout_seconds <= 60,
            Err(_) => text::trim(source).len() == 0 || timeout_seconds < 5 || timeout_seconds > 60,
        },
{
}

/// What is told of an operation is told of that operation; a connection that is made says
/// that it connects and then that it logs in, and one that fails says so.
pub proof fn progress_is_told(operation: Operation, id: Seq<char>, i: int)
    requires
        0 <= i < progress_at_start(operation, id).len(),
    ensures
        progress_at_start(operation, id)[i].operation_id == id,
        progress_at_start(operation, id).len() == (if operation is Test || operation is Connect {
            2int
        } else {
            1
        }),
        progress_at_start(operation, id)[0].status == (if operation is Inspect
            || operation is InspectSaved {
            SessionStatus::HostKeyCheck
        } else {
            SessionStatus::Connecting
        }),
        i == 1 ==> progress_at_start(operation, id)[1].status == SessionStatus::Authenticating,
        progress_at_failure(operation, id) is Some <==> !(operation is Inspect) && !(
        operation is InspectSaved),
        progress_at_failure(operation, id) matches Some(told) ==> told.operation_id == id
            && told.status == SessionStatus::Failed,
        operation_timeout_error(operation).code == "CONNECTION-TIMEOUT"@,
        operation_timeout_error(operation).retryable,
{
}

/// A mock session prints what it is given, and a new prompt where that is a return.
pub proof fn mock_sessions_echo(session_id: Seq<char>, data: Seq<u8>)
    ensures
        ({
            let printed = mock_output(session_id, data);
            &&& printed.len() == if data == seq![13u8] {
                2int
            } else {
                1
            }
            &&& printed[0].data == data
            &&& forall|i: int|
                0 <= i < printed.len() ==> (#[trigger] printed[i]).session_id == session_id
        }),
{
}

} // verus!
