//! What goes wrong while a connection is set up, as the user is told.

#![verifier::loop_isolation(false)]

use crate::error::{self, AppError, ErrorView};
use crate::known_hosts::{self, HostKeyIdentity, HostKeyIdentityView};
use crate::outside::{self, key_fingerprint};
use crate::text::{self, ascii_lowercase, contains, same};
use vstd::prelude::*;

verus! {

/// What the SSH protocol failed at.
#[derive(Clone, Copy, Debug, PartialEq, Eq, Structural)]
pub enum SshFault {
    /// The two sides have no algorithm in common.
    NoCommonAlgorithm,
    /// The key of the server was not accepted.
    KeyRejected,
    /// The other side did not answer in time.
    TimedOut,
    /// The other side closed the connection.
    Closed,
    /// Anything else.
    Other,
}

/// What setting up a connection failed at.
#[derive(Clone, Copy, Debug, PartialEq, Eq, Structural)]
pub enum ConnectFault {
    /// The host has no address.
    NotFound,
    /// The host refused the connection.
    Refused,
    /// The host did not answer in time.
    TimedOut,
    /// Anything else of the network.
    Network,
    /// The protocol.
    Ssh(SshFault),
}

/// What reading a private key failed at.
#[derive(Clone, Copy, Debug, PartialEq, Eq, Structural)]
pub enum KeyFault {
    /// There is no such file.
    NotFound,
    /// The file must not be read.
    PermissionDenied,
    /// The key has a passphrase, and none was given.
    Encrypted,
    /// Anything else.
    Other,
}

/// The error for a connection that took too long.
pub open spec fn connection_timeout_error() -> ErrorView {
    error::ssh_error(
        "CONNECTION-TIMEOUT"@,
        "连接超时，请检查主机、端口和防火墙"@,
        "SSH setup exceeded the configured timeout"@,
        true,
    )
}

/// The error for a connection that took too long.
pub fn connection_timeout() -> (r: AppError)
    ensures
        r@ == connection_timeout_error(),
{
    AppError::ssh(
        "CONNECTION-TIMEOUT",
        "连接超时，请检查主机、端口和防火墙",
        "SSH setup exceeded the configured timeout",
        true,
    )
}

/// The error for a failure of the protocol.
pub open spec fn ssh_fault_error(fault: SshFault, details: Seq<char>) -> ErrorView {
    match fault {
        SshFault::NoCommonAlgorithm => error::ssh_error(
            "SSH-NO-COMMON-ALGORITHM"@,
            "无法与服务器协商安全算法"@,
            details,
            false,
        ),
        SshFault::KeyRejected => error::ssh_error(
            "HOST-KEY-REJECTED"@,
            "服务器身份校验失败，连接已阻止"@,
            details,
            false,
        ),
        SshFault::TimedOut => connection_timeout_error(),
        SshFault::Closed => error::ssh_error(
            "REMOTE-CLOSED"@,
            "服务器已关闭当前连接"@,
            details,
            true,
        ),
        SshFault::Other => error::ssh_error(
            "SSH-PROTOCOL-ERROR"@,
            "SSH 握手或会话建立失败"@,
            details,
            true,
        ),
    }
}

/// The error for a failure of the protocol.
pub fn map_russh_error(fault: SshFault, details: &str) -> (r: AppError)
    ensures
        r@ == ssh_fault_error(fault, details@),
{
    match fault {
        SshFault::NoCommonAlgorithm => AppError::ssh(
            "SSH-NO-COMMON-ALGORITHM",
            "无法与服务器协商安全算法",
            details,
            false,
        ),
        SshFault::KeyRejected => AppError::ssh(
            "HOST-KEY-REJECTED",
            "服务器身份校验失败，连接已阻止",
            details,
            false,
        ),
        SshFault::TimedOut => connection_timeout(),
        SshFault::Closed => AppError::ssh(
            "REMOTE-CLOSED",
            "服务器已关闭当前连接",
            details,
            true,
        ),
        SshFault::Other => AppError::ssh(
            "SSH-PROTOCOL-ERROR",
            "SSH 握手或会话建立失败",
            details,
            true,
        ),
    }
}

/// The error for a connection that could not be set up.
pub open spec fn connect_fault_error(fault: ConnectFault, details: Seq<char>) -> ErrorView {
    match fault {
        ConnectFault::NotFound => error::ssh_error(
            "DNS-RESOLUTION-FAILED"@,
            "无法解析主机名，请检查地址或网络设置"@,
            details,
            true,
        ),
        ConnectFault::Refused => error::ssh_error(
            "CONNECTION-REFUSED"@,
            "目标主机拒绝连接，请确认 SSH 服务和端口"@,
            details,
            true,
        ),
        ConnectFault::TimedOut => connection_timeout_error(),
        ConnectFault::Network => error::ssh_error(
            "NETWORK-ERROR"@,
            "无法连接服务器，请检查网络设置"@,
            details,
            true,
        ),
        ConnectFault::Ssh(fault) => ssh_fault_error(fault, details),
    }
}

/// The error for a connection that could not be set up.
pub fn map_connect_error(fault: ConnectFault, details: &str) -> (r: AppError)
    ensures
        r@ == connect_fault_error(fault, details@),
{
    match fault {
        ConnectFault::NotFound => AppError::ssh(
            "DNS-RESOLUTION-FAILED",
            "无法解析主机名，请检查地址或网络设置",
            details,
            true,
        ),
        ConnectFault::Refused => AppError::ssh(
            "CONNECTION-REFUSED",
            "目标主机拒绝连接，请确认 SSH 服务和端口",
            details,
            true,
        ),
        ConnectFault::TimedOut => connection_timeout(),
        ConnectFault::Network => AppError::ssh(
            "NETWORK-ERROR",
            "无法连接服务器，请检查网络设置",
            details,
            true,
        ),
        ConnectFault::Ssh(fault) => map_russh_error(fault, details),
    }
}

/// Whether the reason that a private key could not be read points at its
/// passphrase.
pub open spec fn blames_passphrase(details: Seq<char>) -> bool {
    text::contains_text(text::lower(details), "decrypt"@) || text::contains_text(text::lower(details), "password"@)
}

/// The error for a private key that could not be read.
pub open spec fn key_fault_error(fault: KeyFault, details: Seq<char>) -> ErrorView {
    match fault {
        KeyFault::NotFound => error::ssh_error(
            "PRIVATE-KEY-NOT-FOUND"@,
            "所选私钥文件不存在"@,
            details,
            false,
        ),
        KeyFault::PermissionDenied => error::ssh_error(
            "PRIVATE-KEY-PERMISSION-DENIED"@,
            "没有权限读取所选私钥"@,
            details,
            false,
        ),
        KeyFault::Encrypted => error::ssh_error(
            "PRIVATE-KEY-PASSPHRASE-REQUIRED"@,
            "该私钥需要口令"@,
            details,
            true,
        ),
        KeyFault::Other => if blames_passphrase(details) {
            error::ssh_error("PRIVATE-KEY-PASSPHRASE-INVALID"@, "私钥口令不正确"@, details, true)
        } else {
            error::ssh_error("PRIVATE-KEY-INVALID"@, "无法读取或解析所选私钥"@, details, false)
        },
    }
}

/// The error for a private key that could not be read.
pub fn map_private_key_error(fault: KeyFault, details: &str) -> (r: AppError)
    ensures
        r@ == key_fault_error(fault, details@),
{
    match fault {
        KeyFault::NotFound => AppError::ssh(
            "PRIVATE-KEY-NOT-FOUND",
            "所选私钥文件不存在",
            details,
            false,
        ),
        KeyFault::PermissionDenied => AppError::ssh(
            "PRIVATE-KEY-PERMISSION-DENIED",
            "没有权限读取所选私钥",
            details,
            false,
        ),
        KeyFault::Encrypted => AppError::ssh(
            "PRIVATE-KEY-PASSPHRASE-REQUIRED",
            "该私钥需要口令",
            details,
            true,
        ),
        KeyFault::Other => {
            let text = ascii_lowercase(details);
            if contains(text.as_str(), "decrypt") || contains(text.as_str(), "password") {
                AppError::ssh("PRIVATE-KEY-PASSPHRASE-INVALID", "私钥口令不正确", details, true)
            } else {
                AppError::ssh("PRIVATE-KEY-INVALID", "无法读取或解析所选私钥", details, false)
            }
        },
    }
}

/// The error where the work that reads a private key broke off.
pub fn private_key_read_failed(reason: &str) -> (r: AppError)
    ensures
        r@ == error::ssh_error("PRIVATE-KEY-READ-FAILED"@, "无法读取所选私钥"@, reason@, true),
{
    AppError::ssh("PRIVATE-KEY-READ-FAILED", "无法读取所选私钥", reason, true)
}

/// The error where the key that a server showed cannot be looked at.
pub fn host_key_unreadable() -> (r: AppError)
    ensures
        r@ == error::ssh_error(
            "HOST-KEY-READ-FAILED"@,
            "无法读取服务器指纹"@,
            "host key capture lock was poisoned"@,
            true,
        ),
{
    AppError::ssh(
        "HOST-KEY-READ-FAILED",
        "无法读取服务器指纹",
        "host key capture lock was poisoned",
        true,
    )
}

/// The error for a server that showed no key.
pub open spec fn host_key_missing_error() -> ErrorView {
    error::ssh_error(
        "HOST-KEY-MISSING"@,
        "服务器未提供可验证的主机密钥"@,
        "SSH handshake completed without a captured server key"@,
        false,
    )
}

/// The error for a server whose key is another than the one that was confirmed.
pub open spec fn host_key_changed_error() -> ErrorView {
    error::ssh_error(
        "HOST-KEY-CHANGED"@,
        "服务器身份与确认时不一致，连接已阻止"@,
        "server host key changed between inspection and connection"@,
        false,
    )
}

/// Whether the key that a server shows is the one that was confirmed. Only then
/// does the connection go on.
pub fn check_server_key(key: &Vec<u8>, expected_fingerprint: &str) -> (r: bool)
    ensures
        r == (outside::key_fingerprint_of(key@) == Some(expected_fingerprint@)),
{
    match key_fingerprint(key) {
        Some(fingerprint) => same(fingerprint.as_str(), expected_fingerprint),
        None => false,
    }
}

/// The error for a connection that was not set up, given the fingerprint of the
/// key that the server showed.
pub open spec fn refused_connection(
    shown: Option<Seq<char>>,
    expected: Seq<char>,
    error: ErrorView,
) -> ErrorView {
    if shown is Some && shown != Some(expected) {
        host_key_changed_error()
    } else {
        error
    }
}

/// The error for a server whose key is not the one that was confirmed.
pub fn host_key_changed() -> (r: AppError)
    ensures
        r@ == host_key_changed_error(),
{
    AppError::ssh(
        "HOST-KEY-CHANGED",
        "服务器身份与确认时不一致，连接已阻止",
        "server host key changed between inspection and connection",
        false,
    )
}

/// The error for a connection that was not set up, given the fingerprint of the
/// key that the server showed.
pub fn connection_refused(shown: &Option<String>, expected: &str, error: AppError) -> (r: AppError)
    ensures
        r@ == refused_connection(shown.deep_view(), expected@, error@),
{
    match shown {
        Some(fingerprint) => {
            if !same(fingerprint.as_str(), expected) {
                return host_key_changed();
            }
            error
        },
        None => error,
    }
}

/// The fingerprint of the key that a server showed.
pub open spec fn shown_fingerprint(captured: Option<Seq<u8>>) -> Option<Seq<char>> {
    match captured {
        Some(key) => outside::key_fingerprint_of(key),
        None => None,
    }
}

/// The fingerprint of the key that a server showed.
pub fn captured_fingerprint(captured: &Option<Vec<u8>>) -> (r: Option<String>)
    ensures
        r.deep_view() == shown_fingerprint(captured.deep_view()),
{
    match captured {
        Some(key) => {
            assert(key.deep_view() =~= key@);
            key_fingerprint(key)
        },
        None => None,
    }
}

/// The identity of the key that a server showed, given what reading the key gave.
pub open spec fn shown_identity(
    captured: Option<Result<HostKeyIdentityView, Seq<char>>>,
) -> Result<HostKeyIdentityView, ErrorView> {
    match captured {
        None => Err(host_key_missing_error()),
        Some(Ok(identity)) => Ok(identity),
        Some(Err(reason)) => Err(ssh_fault_error(SshFault::Other, reason)),
    }
}

/// The identity of the key that a server showed, given what reading the key gave.
pub fn identity_or_error(captured: Option<Result<HostKeyIdentity, String>>) -> (r: Result<
    HostKeyIdentity,
    AppError,
>)
    ensures
        error::ends_as(
            r,
            shown_identity(
                match captured {
                    None => None,
                    Some(Ok(identity)) => Some(Ok(identity@)),
                    Some(Err(reason)) => Some(Err(reason@)),
                },
            ),
        ),
{
    match captured {
        None => Err(
            AppError::ssh(
                "HOST-KEY-MISSING",
                "服务器未提供可验证的主机密钥",
                "SSH handshake completed without a captured server key",
                false,
            ),
        ),
        Some(Ok(identity)) => Ok(identity),
        Some(Err(reason)) => Err(map_russh_error(SshFault::Other, reason.as_str())),
    }
}

/// What reading the key that a server showed gives.
pub open spec fn read_key(captured: Option<Seq<u8>>) -> Option<
    Result<HostKeyIdentityView, Seq<char>>,
> {
    match captured {
        None => None,
        Some(key) => Some(
            known_hosts::identity_from(outside::key_algorithm_of(key), outside::key_fingerprint_of(key), outside::key_openssh_of(key)),
        ),
    }
}

/// The identity of the key that a server showed.
pub fn captured_identity(captured: &Option<Vec<u8>>) -> (r: Result<HostKeyIdentity, AppError>)
    ensures
        error::ends_as(r, shown_identity(read_key(captured.deep_view()))),
{
    match captured {
        None => identity_or_error(None),
        Some(key) => {
            assert(key.deep_view() =~= key@);
            identity_or_error(Some(HostKeyIdentity::from_public_key(key)))
        },
    }
}

/// The error for a server on the way that cannot reach the next.
pub fn upstream_unreachable(reason: &str) -> (r: AppError)
    ensures
        r@ == error::ssh_error("JUMP-HOST-FAILED"@, "跳板服务器无法连接下一节点"@, reason@, true),
{
    AppError::ssh("JUMP-HOST-FAILED", "跳板服务器无法连接下一节点", reason, true)
}

/// The error for an agent that cannot be reached.
pub fn agent_unavailable(details: &str) -> (r: AppError)
    ensures
        r@ == error::ssh_error(
            "AUTH-AGENT-UNAVAILABLE"@,
            "无法连接系统 SSH Agent，请确认 OpenSSH Authentication Agent 服务已启动"@,
            details@,
            true,
        ),
{
    AppError::ssh(
        "AUTH-AGENT-UNAVAILABLE",
        "无法连接系统 SSH Agent，请确认 OpenSSH Authentication Agent 服务已启动",
        details,
        true,
    )
}

/// The error for an agent that does not sign.
pub fn agent_sign_failed(reason: &str) -> (r: AppError)
    ensures
        r@ == error::ssh_error("AUTH-AGENT-SIGN-FAILED"@, "SSH Agent 未能完成签名"@, reason@, true),
{
    AppError::ssh("AUTH-AGENT-SIGN-FAILED", "SSH Agent 未能完成签名", reason, true)
}

/// A key that is not the one that was confirmed is what is told of a connection that
/// failed, whatever else went wrong; otherwise what went wrong is told.
pub proof fn changed_keys_are_told_first(
    shown: Option<Seq<char>>,
    expected: Seq<char>,
    error: ErrorView,
)
    ensures
        match shown {
            Some(key) => if key == expected {
                refused_connection(shown, expected, error) == error
            } else {
                refused_connection(shown, expected, error).code == "HOST-KEY-CHANGED"@
                    && !refused_connection(shown, expected, error).retryable
            },
            None => refused_connection(shown, expected, error) == error,
        },
{
}

/// A server that shows no key is not known, one whose key can be read is known by it, and
/// one whose key cannot be read is not known.
pub proof fn servers_are_known_by_their_key(
    captured: Option<Result<HostKeyIdentityView, Seq<char>>>,
)
    ensures
        match (captured, shown_identity(captured)) {
            (None, Err(error)) => error.code == "HOST-KEY-MISSING"@ && !error.retryable,
            (Some(Ok(identity)), Ok(known)) => known == identity,
            (Some(Err(reason)), Err(error)) => error.technical_details == Some(reason),
            _ => false,
        },
{
}

/// What goes wrong with a connection, with the protocol or with a key file is told by a
/// code of its own, with the details, and as worth another try only where it may be.
pub proof fn faults_have_their_codes(details: Seq<char>)
    ensures
        ssh_fault_error(SshFault::NoCommonAlgorithm, details).code == "SSH-NO-COMMON-ALGORITHM"@,
        ssh_fault_error(SshFault::KeyRejected, details).code == "HOST-KEY-REJECTED"@,
        ssh_fault_error(SshFault::TimedOut, details).code == "CONNECTION-TIMEOUT"@,
        ssh_fault_error(SshFault::Closed, details).code == "REMOTE-CLOSED"@,
        ssh_fault_error(SshFault::Other, details).code == "SSH-PROTOCOL-ERROR"@,
        !ssh_fault_error(SshFault::NoCommonAlgorithm, details).retryable,
        !ssh_fault_error(SshFault::KeyRejected, details).retryable,
        ssh_fault_error(SshFault::TimedOut, details).retryable,
        ssh_fault_error(SshFault::Closed, details).retryable,
        ssh_fault_error(SshFault::Other, details).retryable,
        ssh_fault_error(SshFault::Other, details).technical_details == Some(details),
        connect_fault_error(ConnectFault::NotFound, details).code == "DNS-RESOLUTION-FAILED"@,
        connect_fault_error(ConnectFault::Refused, details).code == "CONNECTION-REFUSED"@,
        connect_fault_error(ConnectFault::TimedOut, details).code == "CONNECTION-TIMEOUT"@,
        connect_fault_error(ConnectFault::Network, details).code == "NETWORK-ERROR"@,
        connect_fault_error(ConnectFault::Network, details).technical_details == Some(details),
        connect_fault_error(ConnectFault::Ssh(SshFault::Closed), details) == ssh_fault_error(
            SshFault::Closed,
            details,
        ),
        key_fault_error(KeyFault::NotFound, details).code == "PRIVATE-KEY-NOT-FOUND"@,
        key_fault_error(KeyFault::PermissionDenied, details).code
            == "PRIVATE-KEY-PERMISSION-DENIED"@,
        key_fault_error(KeyFault::Encrypted, details).code == "PRIVATE-KEY-PASSPHRASE-REQUIRED"@,
        key_fault_error(KeyFault::Other, details).code == if blames_passphrase(details) {
            "PRIVATE-KEY-PASSPHRASE-INVALID"@
        } else {
            "PRIVATE-KEY-INVALID"@
        },
        key_fault_error(KeyFault::Other, details).retryable == blames_passphrase(details),
        key_fault_error(KeyFault::Other, details).technical_details == Some(details),
{
}

} // verus!
