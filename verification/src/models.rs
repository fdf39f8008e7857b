//! The values that the library exchanges with its callers. Each has a view that
//! holds its texts as sequences of characters.

#![verifier::loop_isolation(false)]

use crate::text::{clone_text, clone_texts};
use vstd::prelude::*;

verus! {

/// A value that can be copied field by field.
pub trait Duplicate: DeepView + Sized {
    /// A copy that says the same.
    fn duplicate(&self) -> (r: Self)
        ensures
            r.deep_view() == self.deep_view(),
    ;
}

/// A copy of a list.
pub fn duplicate_list<T: Duplicate>(list: &Vec<T>) -> (r: Vec<T>)
    ensures
        r.deep_view() == list.deep_view(),
{
    let mut r: Vec<T> = Vec::new();
    let mut i: usize = 0;
    while i < list.len()
        invariant
            i <= list@.len(),
            r@.len() == i,
            forall|j: int| 0 <= j < i ==> (#[trigger] r@[j]).deep_view() == list@[j].deep_view(),
        decreases list@.len() - i,
    {
        r.push(list[i].duplicate());
        i = i + 1;
    }
    assert(r.deep_view() =~= list.deep_view());
    r
}

/// A copy of an optional value.
pub fn duplicate_option<T: Duplicate>(value: &Option<T>) -> (r: Option<T>)
    ensures
        r.deep_view() == value.deep_view(),
{
    match value {
        Some(inner) => Some(inner.duplicate()),
        None => None,
    }
}

/// A copy of a list of bytes.
pub fn clone_bytes(list: &Vec<u8>) -> (r: Vec<u8>)
    ensures
        r@ == list@,
{
    let mut r: Vec<u8> = Vec::new();
    let mut i: usize = 0;
    while i < list.len()
        invariant
            i <= list@.len(),
            r@ == list@.take(i as int),
        decreases list@.len() - i,
    {
        r.push(list[i]);
        i = i + 1;
        assert(r@ =~= list@.take(i as int));
    }
    assert(list@.take(i as int) =~= list@);
    r
}

/// How a connection proves who the user is.
#[derive(Clone, Copy, Debug, PartialEq, Eq, Structural)]
pub enum AuthType {
    Password,
    PrivateKey,
    KeyboardInteractive,
    Agent,
}

/// The protocol that a proxy speaks.
#[derive(Clone, Copy, Debug, PartialEq, Eq, Structural)]
pub enum ProxyType {
    Http,
    Socks5,
}

/// The direction of a tunnel, or a SOCKS proxy.
#[derive(Clone, Copy, Debug, PartialEq, Eq, Structural)]
pub enum TunnelKind {
    Local,
    Remote,
    Dynamic,
}

/// When a tunnel starts.
#[derive(Clone, Copy, Debug, PartialEq, Eq, Structural)]
pub enum TunnelStartPolicy {
    Manual,
    WithConnection,
}

/// The state of a session.
#[derive(Clone, Copy, Debug, PartialEq, Eq, Structural)]
pub enum SessionStatus {
    HostKeyCheck,
    Connecting,
    Authenticating,
    Connected,
    Disconnected,
    Failed,
}

/// What is known of the key that a server showed.
#[derive(Clone, Copy, Debug, PartialEq, Eq, Structural)]
pub enum HostKeyStatus {
    Unknown,
    Trusted,
    Changed,
}

/// What the user decided on the key that a server showed.
#[derive(Clone, Copy, Debug, PartialEq, Eq, Structural)]
pub enum HostKeyAction {
    TrustNew,
    UseTrusted,
    ReplaceChanged,
}

/// The direction of a transfer.
#[derive(Clone, Copy, Debug, PartialEq, Eq, Structural)]
pub enum TransferDirection {
    Upload,
    Download,
}

/// The state of a transfer.
#[derive(Clone, Copy, Debug, PartialEq, Eq, Structural)]
pub enum TransferStatus {
    Queued,
    Scanning,
    Running,
    Completed,
    Failed,
    Cancelled,
}

/// What a transfer does where its target exists.
#[derive(Clone, Copy, Debug, PartialEq, Eq, Structural)]
pub enum TransferConflictPolicy {
    Ask,
    Overwrite,
    Skip,
    Rename,
}

/// The state of a tunnel.
#[derive(Clone, Copy, Debug, PartialEq, Eq, Structural)]
pub enum TunnelStatus {
    Starting,
    Running,
    Stopping,
    Stopped,
    Failed,
}

/// What an entry of a remote directory is.
#[derive(Clone, Copy, Debug, PartialEq, Eq, Structural)]
pub enum RemoteEntryKind {
    Directory,
    File,
    Symlink,
    Other,
}

/// What the program answers to show that it is up.
#[derive(Debug)]
pub struct HealthResponse {
    pub status: &'static str,
    pub protocol_version: u16,
    pub app_version: &'static str,
}

/// What a [`HealthResponse`] says.
#[verifier::ext_equal]
pub struct HealthResponseView {
    pub status: Seq<char>,
    pub protocol_version: u16,
    pub app_version: Seq<char>,
}

impl View for HealthResponse {
    type V = HealthResponseView;

    open spec fn view(&self) -> HealthResponseView {
        HealthResponseView {
            status: self.status@,
            protocol_version: self.protocol_version,
            app_version: self.app_version@,
        }
    }
}

impl DeepView for HealthResponse {
    type V = HealthResponseView;

    open spec fn deep_view(&self) -> HealthResponseView {
        self@
    }
}

impl Duplicate for HealthResponse {
    fn duplicate(&self) -> (r: Self) {
        HealthResponse {
            status: self.status,
            protocol_version: self.protocol_version,
            app_version: self.app_version,
        }
    }
}

impl Clone for HealthResponse {
    fn clone(&self) -> (r: Self)
        ensures
            r@ == self@,
    {
        self.duplicate()
    }
}

/// A session as the user interface shows it.
#[derive(Debug)]
pub struct SessionState {
    pub id: String,
    pub title: String,
    pub status: SessionStatus,
    pub started_at: String,
}

/// What a [`SessionState`] says.
#[verifier::ext_equal]
pub struct SessionStateView {
    pub id: Seq<char>,
    pub title: Seq<char>,
    pub status: SessionStatus,
    pub started_at: Seq<char>,
}

impl View for SessionState {
    type V = SessionStateView;

    open spec fn view(&self) -> SessionStateView {
        SessionStateView {
            id: self.id@,
            title: self.title@,
            status: self.status,
            started_at: self.started_at@,
        }
    }
}

impl DeepView for SessionState {
    type V = SessionStateView;

    open spec fn deep_view(&self) -> SessionStateView {
        self@
    }
}

impl Duplicate for SessionState {
    fn duplicate(&self) -> (r: Self) {
        SessionState {
            id: self.id.clone(),
            title: self.title.clone(),
            status: self.status,
            started_at: self.started_at.clone(),
        }
    }
}

impl Clone for SessionState {
    fn clone(&self) -> (r: Self)
        ensures
            r@ == self@,
    {
        self.duplicate()
    }
}

/// Bytes that a session printed.
#[derive(Debug)]
pub struct SessionOutputPayload {
    pub session_id: String,
    pub data: Vec<u8>,
}

/// What a [`SessionOutputPayload`] says.
#[verifier::ext_equal]
pub struct SessionOutputPayloadView {
    pub session_id: Seq<char>,
    pub data: Seq<u8>,
}

impl View for SessionOutputPayload {
    type V = SessionOutputPayloadView;

    open spec fn view(&self) -> SessionOutputPayloadView {
        SessionOutputPayloadView {
            session_id: self.session_id@,
            data: self.data@,
        }
    }
}

impl DeepView for SessionOutputPayload {
    type V = SessionOutputPayloadView;

    open spec fn deep_view(&self) -> SessionOutputPayloadView {
        self@
    }
}

impl Duplicate for SessionOutputPayload {
    fn duplicate(&self) -> (r: Self) {
        SessionOutputPayload {
            session_id: self.session_id.clone(),
            data: clone_bytes(&self.data),
        }
    }
}

impl Clone for SessionOutputPayload {
    fn clone(&self) -> (r: Self)
        ensures
            r@ == self@,
    {
        self.duplicate()
    }
}

/// A change in a session's state.
#[derive(Debug)]
pub struct SessionStatusPayload {
    pub session_id: String,
    pub status: SessionStatus,
    pub message: Option<String>,
}

/// What a [`SessionStatusPayload`] says.
#[verifier::ext_equal]
pub struct SessionStatusPayloadView {
    pub session_id: Seq<char>,
    pub status: SessionStatus,
    pub message: Option<Seq<char>>,
}

impl View for SessionStatusPayload {
    type V = SessionStatusPayloadView;

    open spec fn view(&self) -> SessionStatusPayloadView {
        SessionStatusPayloadView {
            session_id: self.session_id@,
            status: self.status,
            message: self.message.deep_view(),
        }
    }
}

impl DeepView for SessionStatusPayload {
    type V = SessionStatusPayloadView;

    open spec fn deep_view(&self) -> SessionStatusPayloadView {
        self@
    }
}

impl Duplicate for SessionStatusPayload {
    fn duplicate(&self) -> (r: Self) {
        SessionStatusPayload {
            session_id: self.session_id.clone(),
            status: self.status,
            message: clone_text(&self.message),
        }
    }
}

impl Clone for SessionStatusPayload {
    fn clone(&self) -> (r: Self)
        ensures
            r@ == self@,
    {
        self.duplicate()
    }
}

/// A step in setting up a connection.
#[derive(Debug)]
pub struct ConnectionProgressPayload {
    pub operation_id: String,
    pub status: SessionStatus,
    pub message: String,
}

/// What a [`ConnectionProgressPayload`] says.
#[verifier::ext_equal]
pub struct ConnectionProgressPayloadView {
    pub operation_id: Seq<char>,
    pub status: SessionStatus,
    pub message: Seq<char>,
}

impl View for ConnectionProgressPayload {
    type V = ConnectionProgressPayloadView;

    open spec fn view(&self) -> ConnectionProgressPayloadView {
        ConnectionProgressPayloadView {
            operation_id: self.operation_id@,
            status: self.status,
            message: self.message@,
        }
    }
}

impl DeepView for ConnectionProgressPayload {
    type V = ConnectionProgressPayloadView;

    open spec fn deep_view(&self) -> ConnectionProgressPayloadView {
        self@
    }
}

impl Duplicate for ConnectionProgressPayload {
    fn duplicate(&self) -> (r: Self) {
        ConnectionProgressPayload {
            operation_id: self.operation_id.clone(),
            status: self.status,
            message: self.message.clone(),
        }
    }
}

impl Clone for ConnectionProgressPayload {
    fn clone(&self) -> (r: Self)
        ensures
            r@ == self@,
    {
        self.duplicate()
    }
}

/// A group of connections.
#[derive(Debug)]
pub struct ConnectionGroup {
    pub id: String,
    pub name: String,
    pub created_at: String,
    pub updated_at: String,
}

/// What a [`ConnectionGroup`] says.
#[verifier::ext_equal]
pub struct ConnectionGroupView {
    pub id: Seq<char>,
    pub name: Seq<char>,
    pub created_at: Seq<char>,
    pub updated_at: Seq<char>,
}

impl View for ConnectionGroup {
    type V = ConnectionGroupView;

    open spec fn view(&self) -> ConnectionGroupView {
        ConnectionGroupView {
            id: self.id@,
            name: self.name@,
            created_at: self.created_at@,
            updated_at: self.updated_at@,
        }
    }
}

impl DeepView for ConnectionGroup {
    type V = ConnectionGroupView;

    open spec fn deep_view(&self) -> ConnectionGroupView {
        self@
    }
}

impl Duplicate for ConnectionGroup {
    fn duplicate(&self) -> (r: Self) {
        ConnectionGroup {
            id: self.id.clone(),
            name: self.name.clone(),
            created_at: self.created_at.clone(),
            updated_at: self.updated_at.clone(),
        }
    }
}

impl Clone for ConnectionGroup {
    fn clone(&self) -> (r: Self)
        ensures
            r@ == self@,
    {
        self.duplicate()
    }
}

/// A saved proxy. The password is in the credential store, under `credential_ref`.
#[derive(Debug)]
pub struct ProxyProfile {
    pub proxy_type: ProxyType,
    pub host: String,
    pub port: u16,
    pub username: Option<String>,
    pub credential_ref: Option<String>,
}

/// What a [`ProxyProfile`] says.
#[verifier::ext_equal]
pub struct ProxyProfileView {
    pub proxy_type: ProxyType,
    pub host: Seq<char>,
    pub port: u16,
    pub username: Option<Seq<char>>,
    pub credential_ref: Option<Seq<char>>,
}

impl View for ProxyProfile {
    type V = ProxyProfileView;

    open spec fn view(&self) -> ProxyProfileView {
        ProxyProfileView {
            proxy_type: self.proxy_type,
            host: self.host@,
            port: self.port,
            username: self.username.deep_view(),
            credential_ref: self.credential_ref.deep_view(),
        }
    }
}

impl DeepView for ProxyProfile {
    type V = ProxyProfileView;

    open spec fn deep_view(&self) -> ProxyProfileView {
        self@
    }
}

impl Duplicate for ProxyProfile {
    fn duplicate(&self) -> (r: Self) {
        ProxyProfile {
            proxy_type: self.proxy_type,
            host: self.host.clone(),
            port: self.port,
            username: clone_text(&self.username),
            credential_ref: clone_text(&self.credential_ref),
        }
    }
}

impl Clone for ProxyProfile {
    fn clone(&self) -> (r: Self)
        ensures
            r@ == self@,
    {
        self.duplicate()
    }
}

/// A saved connection. The secret is in the credential store, under `credential_ref`.
#[derive(Debug)]
pub struct ConnectionProfile {
    pub id: String,
    pub name: String,
    pub host: String,
    pub port: u16,
    pub username: String,
    pub auth_type: AuthType,
    pub credential_ref: Option<String>,
    pub private_key_path: Option<String>,
    pub agent_key_fingerprint: Option<String>,
    pub proxy: Option<ProxyProfile>,
    pub jump_host_ids: Vec<String>,
    pub group_id: String,
    pub note: Option<String>,
    pub timeout_seconds: u64,
    pub last_connected_at: Option<String>,
    pub created_at: String,
    pub updated_at: String,
}

/// What a [`ConnectionProfile`] says.
#[verifier::ext_equal]
pub struct ConnectionProfileView {
    pub id: Seq<char>,
    pub name: Seq<char>,
    pub host: Seq<char>,
    pub port: u16,
    pub username: Seq<char>,
    pub auth_type: AuthType,
    pub credential_ref: Option<Seq<char>>,
    pub private_key_path: Option<Seq<char>>,
    pub agent_key_fingerprint: Option<Seq<char>>,
    pub proxy: Option<ProxyProfileView>,
    pub jump_host_ids: Seq<Seq<char>>,
    pub group_id: Seq<char>,
    pub note: Option<Seq<char>>,
    pub timeout_seconds: u64,
    pub last_connected_at: Option<Seq<char>>,
    pub created_at: Seq<char>,
    pub updated_at: Seq<char>,
}

impl View for ConnectionProfile {
    type V = ConnectionProfileView;

    open spec fn view(&self) -> ConnectionProfileView {
        ConnectionProfileView {
            id: self.id@,
            name: self.name@,
            host: self.host@,
            port: self.port,
            username: self.username@,
            auth_type: self.auth_type,
            credential_ref: self.credential_ref.deep_view(),
            private_key_path: self.private_key_path.deep_view(),
            agent_key_fingerprint: self.agent_key_fingerprint.deep_view(),
            proxy: self.proxy.deep_view(),
            jump_host_ids: self.jump_host_ids.deep_view(),
            group_id: self.group_id@,
            note: self.note.deep_view(),
            timeout_seconds: self.timeout_seconds,
            last_connected_at: self.last_connected_at.deep_view(),
            created_at: self.created_at@,
            updated_at: self.updated_at@,
        }
    }
}

impl DeepView for ConnectionProfile {
    type V = ConnectionProfileView;

    open spec fn deep_view(&self) -> ConnectionProfileView {
        self@
    }
}

impl Duplicate for ConnectionProfile {
    fn duplicate(&self) -> (r: Self) {
        ConnectionProfile {
            id: self.id.clone(),
            name: self.name.clone(),
            host: self.host.clone(),
            port: self.port,
            username: self.username.clone(),
            auth_type: self.auth_type,
            credential_ref: clone_text(&self.credential_ref),
            private_key_path: clone_text(&self.private_key_path),
            agent_key_fingerprint: clone_text(&self.agent_key_fingerprint),
            proxy: duplicate_option(&self.proxy),
            jump_host_ids: clone_texts(&self.jump_host_ids),
            group_id: self.group_id.clone(),
            note: clone_text(&self.note),
            timeout_seconds: self.timeout_seconds,
            last_connected_at: clone_text(&self.last_connected_at),
            created_at: self.created_at.clone(),
            updated_at: self.updated_at.clone(),
        }
    }
}

impl Clone for ConnectionProfile {
    fn clone(&self) -> (r: Self)
        ensures
            r@ == self@,
    {
        self.duplicate()
    }
}

/// A request to create or rename a group.
#[derive(Debug)]
pub struct GroupNameRequest {
    pub id: Option<String>,
    pub name: String,
}

/// What a [`GroupNameRequest`] says.
#[verifier::ext_equal]
pub struct GroupNameRequestView {
    pub id: Option<Seq<char>>,
    pub name: Seq<char>,
}

impl View for GroupNameRequest {
    type V = GroupNameRequestView;

    open spec fn view(&self) -> GroupNameRequestView {
        GroupNameRequestView {
            id: self.id.deep_view(),
            name: self.name@,
        }
    }
}

impl DeepView for GroupNameRequest {
    type V = GroupNameRequestView;

    open spec fn deep_view(&self) -> GroupNameRequestView {
        self@
    }
}

impl Duplicate for GroupNameRequest {
    fn duplicate(&self) -> (r: Self) {
        GroupNameRequest {
            id: clone_text(&self.id),
            name: self.name.clone(),
        }
    }
}

impl Clone for GroupNameRequest {
    fn clone(&self) -> (r: Self)
        ensures
            r@ == self@,
    {
        self.duplicate()
    }
}

/// A recent quick-connect target, with its host masked.
#[derive(Debug)]
pub struct RecentTarget {
    pub display_target: String,
    pub last_used_at: String,
}

/// What a [`RecentTarget`] says.
#[verifier::ext_equal]
pub struct RecentTargetView {
    pub display_target: Seq<char>,
    pub last_used_at: Seq<char>,
}

impl View for RecentTarget {
    type V = RecentTargetView;

    open spec fn view(&self) -> RecentTargetView {
        RecentTargetView {
            display_target: self.display_target@,
            last_used_at: self.last_used_at@,
        }
    }
}

impl DeepView for RecentTarget {
    type V = RecentTargetView;

    open spec fn deep_view(&self) -> RecentTargetView {
        self@
    }
}

impl Duplicate for RecentTarget {
    fn duplicate(&self) -> (r: Self) {
        RecentTarget {
            display_target: self.display_target.clone(),
            last_used_at: self.last_used_at.clone(),
        }
    }
}

impl Clone for RecentTarget {
    fn clone(&self) -> (r: Self)
        ensures
            r@ == self@,
    {
        self.duplicate()
    }
}

/// The proxy of a connection that is to be saved.
#[derive(Debug)]
pub struct SaveProxyRequest {
    pub proxy_type: ProxyType,
    pub host: String,
    pub port: u16,
    pub username: Option<String>,
    pub password: Option<String>,
    pub remember_credential: bool,
}

/// What a [`SaveProxyRequest`] says.
#[verifier::ext_equal]
pub struct SaveProxyRequestView {
    pub proxy_type: ProxyType,
    pub host: Seq<char>,
    pub port: u16,
    pub username: Option<Seq<char>>,
    pub password: Option<Seq<char>>,
    pub remember_credential: bool,
}

impl View for SaveProxyRequest {
    type V = SaveProxyRequestView;

    open spec fn view(&self) -> SaveProxyRequestView {
        SaveProxyRequestView {
            proxy_type: self.proxy_type,
            host: self.host@,
            port: self.port,
            username: self.username.deep_view(),
            password: self.password.deep_view(),
            remember_credential: self.remember_credential,
        }
    }
}

impl DeepView for SaveProxyRequest {
    type V = SaveProxyRequestView;

    open spec fn deep_view(&self) -> SaveProxyRequestView {
        self@
    }
}

impl Duplicate for SaveProxyRequest {
    fn duplicate(&self) -> (r: Self) {
        SaveProxyRequest {
            proxy_type: self.proxy_type,
            host: self.host.clone(),
            port: self.port,
            username: clone_text(&self.username),
            password: clone_text(&self.password),
            remember_credential: self.remember_credential,
        }
    }
}

impl Clone for SaveProxyRequest {
    fn clone(&self) -> (r: Self)
        ensures
            r@ == self@,
    {
        self.duplicate()
    }
}

/// A request to create or change a connection.
#[derive(Debug)]
pub struct SaveConnectionRequest {
    pub id: Option<String>,
    pub name: String,
    pub host: String,
    pub port: u16,
    pub username: String,
    pub auth_type: AuthType,
    pub secret: Option<String>,
    pub remember_credential: bool,
    pub private_key_path: Option<String>,
    pub agent_key_fingerprint: Option<String>,
    pub proxy: Option<SaveProxyRequest>,
    pub jump_host_ids: Vec<String>,
    pub group_id: String,
    pub note: Option<String>,
    pub timeout_seconds: u64,
}

/// What a [`SaveConnectionRequest`] says.
#[verifier::ext_equal]
pub struct SaveConnectionRequestView {
    pub id: Option<Seq<char>>,
    pub name: Seq<char>,
    pub host: Seq<char>,
    pub port: u16,
    pub username: Seq<char>,
    pub auth_type: AuthType,
    pub secret: Option<Seq<char>>,
    pub remember_credential: bool,
    pub private_key_path: Option<Seq<char>>,
    pub agent_key_fingerprint: Option<Seq<char>>,
    pub proxy: Option<SaveProxyRequestView>,
    pub jump_host_ids: Seq<Seq<char>>,
    pub group_id: Seq<char>,
    pub note: Option<Seq<char>>,
    pub timeout_seconds: u64,
}

impl View for SaveConnectionRequest {
    type V = SaveConnectionRequestView;

    open spec fn view(&self) -> SaveConnectionRequestView {
        SaveConnectionRequestView {
            id: self.id.deep_view(),
            name: self.name@,
            host: self.host@,
            port: self.port,
            username: self.username@,
            auth_type: self.auth_type,
            secret: self.secret.deep_view(),
            remember_credential: self.remember_credential,
            private_key_path: self.private_key_path.deep_view(),
            agent_key_fingerprint: self.agent_key_fingerprint.deep_view(),
            proxy: self.proxy.deep_view(),
            jump_host_ids: self.jump_host_ids.deep_view(),
            group_id: self.group_id@,
            note: self.note.deep_view(),
            timeout_seconds: self.timeout_seconds,
        }
    }
}

impl DeepView for SaveConnectionRequest {
    type V = SaveConnectionRequestView;

    open spec fn deep_view(&self) -> SaveConnectionRequestView {
        self@
    }
}

impl Duplicate for SaveConnectionRequest {
    fn duplicate(&self) -> (r: Self) {
        SaveConnectionRequest {
            id: clone_text(&self.id),
            name: self.name.clone(),
            host: self.host.clone(),
            port: self.port,
            username: self.username.clone(),
            auth_type: self.auth_type,
            secret: clone_text(&self.secret),
            remember_credential: self.remember_credential,
            private_key_path: clone_text(&self.private_key_path),
            agent_key_fingerprint: clone_text(&self.agent_key_fingerprint),
            proxy: duplicate_option(&self.proxy),
            jump_host_ids: clone_texts(&self.jump_host_ids),
            group_id: self.group_id.clone(),
            note: clone_text(&self.note),
            timeout_seconds: self.timeout_seconds,
        }
    }
}

impl Clone for SaveConnectionRequest {
    fn clone(&self) -> (r: Self)
        ensures
            r@ == self@,
    {
        self.duplicate()
    }
}

/// A saved tunnel.
#[derive(Debug)]
pub struct TunnelProfile {
    pub id: String,
    pub name: String,
    pub connection_id: String,
    pub kind: TunnelKind,
    pub bind_host: String,
    pub bind_port: u16,
    pub target_host: Option<String>,
    pub target_port: Option<u16>,
    pub start_policy: TunnelStartPolicy,
    pub created_at: String,
    pub updated_at: String,
}

/// What a [`TunnelProfile`] says.
#[verifier::ext_equal]
pub struct TunnelProfileView {
    pub id: Seq<char>,
    pub name: Seq<char>,
    pub connection_id: Seq<char>,
    pub kind: TunnelKind,
    pub bind_host: Seq<char>,
    pub bind_port: u16,
    pub target_host: Option<Seq<char>>,
    pub target_port: Option<u16>,
    pub start_policy: TunnelStartPolicy,
    pub created_at: Seq<char>,
    pub updated_at: Seq<char>,
}

impl View for TunnelProfile {
    type V = TunnelProfileView;

    open spec fn view(&self) -> TunnelProfileView {
        TunnelProfileView {
            id: self.id@,
            name: self.name@,
            connection_id: self.connection_id@,
            kind: self.kind,
            bind_host: self.bind_host@,
            bind_port: self.bind_port,
            target_host: self.target_host.deep_view(),
            target_port: self.target_port,
            start_policy: self.start_policy,
            created_at: self.created_at@,
            updated_at: self.updated_at@,
        }
    }
}

impl DeepView for TunnelProfile {
    type V = TunnelProfileView;

    open spec fn deep_view(&self) -> TunnelProfileView {
        self@
    }
}

impl Duplicate for TunnelProfile {
    fn duplicate(&self) -> (r: Self) {
        TunnelProfile {
            id: self.id.clone(),
            name: self.name.clone(),
            connection_id: self.connection_id.clone(),
            kind: self.kind,
            bind_host: self.bind_host.clone(),
            bind_port: self.bind_port,
            target_host: clone_text(&self.target_host),
            target_port: self.target_port,
            start_policy: self.start_policy,
            created_at: self.created_at.clone(),
            updated_at: self.updated_at.clone(),
        }
    }
}

impl Clone for TunnelProfile {
    fn clone(&self) -> (r: Self)
        ensures
            r@ == self@,
    {
        self.duplicate()
    }
}

/// A request to create or change a tunnel.
#[derive(Debug)]
pub struct SaveTunnelRequest {
    pub id: Option<String>,
    pub name: String,
    pub connection_id: String,
    pub kind: TunnelKind,
    pub bind_host: String,
    pub bind_port: u16,
    pub target_host: Option<String>,
    pub target_port: Option<u16>,
    pub start_policy: TunnelStartPolicy,
    pub allow_non_loopback: bool,
}

/// What a [`SaveTunnelRequest`] says.
#[verifier::ext_equal]
pub struct SaveTunnelRequestView {
    pub id: Option<Seq<char>>,
    pub name: Seq<char>,
    pub connection_id: Seq<char>,
    pub kind: TunnelKind,
    pub bind_host: Seq<char>,
    pub bind_port: u16,
    pub target_host: Option<Seq<char>>,
    pub target_port: Option<u16>,
    pub start_policy: TunnelStartPolicy,
    pub allow_non_loopback: bool,
}

impl View for SaveTunnelRequest {
    type V = SaveTunnelRequestView;

    open spec fn view(&self) -> SaveTunnelRequestView {
        SaveTunnelRequestView {
            id: self.id.deep_view(),
            name: self.name@,
            connection_id: self.connection_id@,
            kind: self.kind,
            bind_host: self.bind_host@,
            bind_port: self.bind_port,
            target_host: self.target_host.deep_view(),
            target_port: self.target_port,
            start_policy: self.start_policy,
            allow_non_loopback: self.allow_non_loopback,
        }
    }
}

impl DeepView for SaveTunnelRequest {
    type V = SaveTunnelRequestView;

    open spec fn deep_view(&self) -> SaveTunnelRequestView {
        self@
    }
}

impl Duplicate for SaveTunnelRequest {
    fn duplicate(&self) -> (r: Self) {
        SaveTunnelRequest {
            id: clone_text(&self.id),
            name: self.name.clone(),
            connection_id: self.connection_id.clone(),
            kind: self.kind,
            bind_host: self.bind_host.clone(),
            bind_port: self.bind_port,
            target_host: clone_text(&self.target_host),
            target_port: self.target_port,
            start_policy: self.start_policy,
            allow_non_loopback: self.allow_non_loopback,
        }
    }
}

impl Clone for SaveTunnelRequest {
    fn clone(&self) -> (r: Self)
        ensures
            r@ == self@,
    {
        self.duplicate()
    }
}

/// What an import or export did.
#[derive(Debug)]
pub struct AssetTransferSummary {
    pub connections: usize,
    pub groups: usize,
    pub duplicate_names: usize,
    pub regenerated_ids: usize,
    pub path: String,
}

/// What a [`AssetTransferSummary`] says.
#[verifier::ext_equal]
pub struct AssetTransferSummaryView {
    pub connections: usize,
    pub groups: usize,
    pub duplicate_names: usize,
    pub regenerated_ids: usize,
    pub path: Seq<char>,
}

impl View for AssetTransferSummary {
    type V = AssetTransferSummaryView;

    open spec fn view(&self) -> AssetTransferSummaryView {
        AssetTransferSummaryView {
            connections: self.connections,
            groups: self.groups,
            duplicate_names: self.duplicate_names,
            regenerated_ids: self.regenerated_ids,
            path: self.path@,
        }
    }
}

impl DeepView for AssetTransferSummary {
    type V = AssetTransferSummaryView;

    open spec fn deep_view(&self) -> AssetTransferSummaryView {
        self@
    }
}

impl Duplicate for AssetTransferSummary {
    fn duplicate(&self) -> (r: Self) {
        AssetTransferSummary {
            connections: self.connections,
            groups: self.groups,
            duplicate_names: self.duplicate_names,
            regenerated_ids: self.regenerated_ids,
            path: self.path.clone(),
        }
    }
}

impl Clone for AssetTransferSummary {
    fn clone(&self) -> (r: Self)
        ensures
            r@ == self@,
    {
        self.duplicate()
    }
}

/// Everything that the user saved, as the user interface shows it.
#[derive(Debug)]
pub struct ConnectionAssetSnapshot {
    pub schema_version: u16,
    pub default_group_id: String,
    pub groups: Vec<ConnectionGroup>,
    pub connections: Vec<ConnectionProfile>,
    pub recent_targets: Vec<RecentTarget>,
    pub tunnels: Vec<TunnelProfile>,
}

/// What a [`ConnectionAssetSnapshot`] says.
#[verifier::ext_equal]
pub struct ConnectionAssetSnapshotView {
    pub schema_version: u16,
    pub default_group_id: Seq<char>,
    pub groups: Seq<ConnectionGroupView>,
    pub connections: Seq<ConnectionProfileView>,
    pub recent_targets: Seq<RecentTargetView>,
    pub tunnels: Seq<TunnelProfileView>,
}

impl View for ConnectionAssetSnapshot {
    type V = ConnectionAssetSnapshotView;

    open spec fn view(&self) -> ConnectionAssetSnapshotView {
        ConnectionAssetSnapshotView {
            schema_version: self.schema_version,
            default_group_id: self.default_group_id@,
            groups: self.groups.deep_view(),
            connections: self.connections.deep_view(),
            recent_targets: self.recent_targets.deep_view(),
            tunnels: self.tunnels.deep_view(),
        }
    }
}

impl DeepView for ConnectionAssetSnapshot {
    type V = ConnectionAssetSnapshotView;

    open spec fn deep_view(&self) -> ConnectionAssetSnapshotView {
        self@
    }
}

impl Duplicate for ConnectionAssetSnapshot {
    fn duplicate(&self) -> (r: Self) {
        ConnectionAssetSnapshot {
            schema_version: self.schema_version,
            default_group_id: self.default_group_id.clone(),
            groups: duplicate_list(&self.groups),
            connections: duplicate_list(&self.connections),
            recent_targets: duplicate_list(&self.recent_targets),
            tunnels: duplicate_list(&self.tunnels),
        }
    }
}

impl Clone for ConnectionAssetSnapshot {
    fn clone(&self) -> (r: Self)
        ensures
            r@ == self@,
    {
        self.duplicate()
    }
}

/// The saved data: groups, connections, recent targets and tunnels.
#[derive(Debug)]
pub struct AssetDocument {
    pub schema_version: u16,
    pub groups: Vec<ConnectionGroup>,
    pub connections: Vec<ConnectionProfile>,
    pub recent_targets: Vec<RecentTarget>,
    pub tunnels: Vec<TunnelProfile>,
}

/// What a [`AssetDocument`] says.
#[verifier::ext_equal]
pub struct AssetDocumentView {
    pub schema_version: u16,
    pub groups: Seq<ConnectionGroupView>,
    pub connections: Seq<ConnectionProfileView>,
    pub recent_targets: Seq<RecentTargetView>,
    pub tunnels: Seq<TunnelProfileView>,
}

impl View for AssetDocument {
    type V = AssetDocumentView;

    open spec fn view(&self) -> AssetDocumentView {
        AssetDocumentView {
            schema_version: self.schema_version,
            groups: self.groups.deep_view(),
            connections: self.connections.deep_view(),
            recent_targets: self.recent_targets.deep_view(),
            tunnels: self.tunnels.deep_view(),
        }
    }
}

impl DeepView for AssetDocument {
    type V = AssetDocumentView;

    open spec fn deep_view(&self) -> AssetDocumentView {
        self@
    }
}

impl Duplicate for AssetDocument {
    fn duplicate(&self) -> (r: Self) {
        AssetDocument {
            schema_version: self.schema_version,
            groups: duplicate_list(&self.groups),
            connections: duplicate_list(&self.connections),
            recent_targets: duplicate_list(&self.recent_targets),
            tunnels: duplicate_list(&self.tunnels),
        }
    }
}

impl Clone for AssetDocument {
    fn clone(&self) -> (r: Self)
        ensures
            r@ == self@,
    {
        self.duplicate()
    }
}

/// A proxy to connect through.
#[derive(Debug)]
pub struct ProxyRequest {
    pub proxy_type: ProxyType,
    pub host: String,
    pub port: u16,
    pub username: Option<String>,
    pub password: Option<String>,
}

/// What a [`ProxyRequest`] says.
#[verifier::ext_equal]
pub struct ProxyRequestView {
    pub proxy_type: ProxyType,
    pub host: Seq<char>,
    pub port: u16,
    pub username: Option<Seq<char>>,
    pub password: Option<Seq<char>>,
}

impl View for ProxyRequest {
    type V = ProxyRequestView;

    open spec fn view(&self) -> ProxyRequestView {
        ProxyRequestView {
            proxy_type: self.proxy_type,
            host: self.host@,
            port: self.port,
            username: self.username.deep_view(),
            password: self.password.deep_view(),
        }
    }
}

impl DeepView for ProxyRequest {
    type V = ProxyRequestView;

    open spec fn deep_view(&self) -> ProxyRequestView {
        self@
    }
}

impl Duplicate for ProxyRequest {
    fn duplicate(&self) -> (r: Self) {
        ProxyRequest {
            proxy_type: self.proxy_type,
            host: self.host.clone(),
            port: self.port,
            username: clone_text(&self.username),
            password: clone_text(&self.password),
        }
    }
}

impl Clone for ProxyRequest {
    fn clone(&self) -> (r: Self)
        ensures
            r@ == self@,
    {
        self.duplicate()
    }
}

/// A server to connect to and how to log in there.
#[derive(Debug)]
pub struct ConnectionRequest {
    pub name: String,
    pub host: String,
    pub port: u16,
    pub username: String,
    pub auth_type: AuthType,
    pub password: Option<String>,
    pub private_key_path: Option<String>,
    pub private_key_passphrase: Option<String>,
    pub agent_key_fingerprint: Option<String>,
    pub proxy: Option<ProxyRequest>,
    pub columns: u16,
    pub rows: u16,
    pub timeout_seconds: u64,
    pub keepalive_enabled: bool,
    pub keepalive_seconds: u64,
}

/// What a [`ConnectionRequest`] says.
#[verifier::ext_equal]
pub struct ConnectionRequestView {
    pub name: Seq<char>,
    pub host: Seq<char>,
    pub port: u16,
    pub username: Seq<char>,
    pub auth_type: AuthType,
    pub password: Option<Seq<char>>,
    pub private_key_path: Option<Seq<char>>,
    pub private_key_passphrase: Option<Seq<char>>,
    pub agent_key_fingerprint: Option<Seq<char>>,
    pub proxy: Option<ProxyRequestView>,
    pub columns: u16,
    pub rows: u16,
    pub timeout_seconds: u64,
    pub keepalive_enabled: bool,
    pub keepalive_seconds: u64,
}

impl View for ConnectionRequest {
    type V = ConnectionRequestView;

    open spec fn view(&self) -> ConnectionRequestView {
        ConnectionRequestView {
            name: self.name@,
            host: self.host@,
            port: self.port,
            username: self.username@,
            auth_type: self.auth_type,
            password: self.password.deep_view(),
            private_key_path: self.private_key_path.deep_view(),
            private_key_passphrase: self.private_key_passphrase.deep_view(),
            agent_key_fingerprint: self.agent_key_fingerprint.deep_view(),
            proxy: self.proxy.deep_view(),
            columns: self.columns,
            rows: self.rows,
            timeout_seconds: self.timeout_seconds,
            keepalive_enabled: self.keepalive_enabled,
            keepalive_seconds: self.keepalive_seconds,
        }
    }
}

impl DeepView for ConnectionRequest {
    type V = ConnectionRequestView;

    open spec fn deep_view(&self) -> ConnectionRequestView {
        self@
    }
}

impl Duplicate for ConnectionRequest {
    fn duplicate(&self) -> (r: Self) {
        ConnectionRequest {
            name: self.name.clone(),
            host: self.host.clone(),
            port: self.port,
            username: self.username.clone(),
            auth_type: self.auth_type,
            password: clone_text(&self.password),
            private_key_path: clone_text(&self.private_key_path),
            private_key_passphrase: clone_text(&self.private_key_passphrase),
            agent_key_fingerprint: clone_text(&self.agent_key_fingerprint),
            proxy: duplicate_option(&self.proxy),
            columns: self.columns,
            rows: self.rows,
            timeout_seconds: self.timeout_seconds,
            keepalive_enabled: self.keepalive_enabled,
            keepalive_seconds: self.keepalive_seconds,
        }
    }
}

impl Clone for ConnectionRequest {
    fn clone(&self) -> (r: Self)
        ensures
            r@ == self@,
    {
        self.duplicate()
    }
}

/// A server on the way to the target, with the key that it must show.
#[derive(Debug)]
pub struct JumpHostRequest {
    pub connection: ConnectionRequest,
    pub expected_fingerprint: String,
}

/// What a [`JumpHostRequest`] says.
#[verifier::ext_equal]
pub struct JumpHostRequestView {
    pub connection: ConnectionRequestView,
    pub expected_fingerprint: Seq<char>,
}

impl View for JumpHostRequest {
    type V = JumpHostRequestView;

    open spec fn view(&self) -> JumpHostRequestView {
        JumpHostRequestView {
            connection: self.connection@,
            expected_fingerprint: self.expected_fingerprint@,
        }
    }
}

impl DeepView for JumpHostRequest {
    type V = JumpHostRequestView;

    open spec fn deep_view(&self) -> JumpHostRequestView {
        self@
    }
}

impl Duplicate for JumpHostRequest {
    fn duplicate(&self) -> (r: Self) {
        JumpHostRequest {
            connection: self.connection.duplicate(),
            expected_fingerprint: self.expected_fingerprint.clone(),
        }
    }
}

impl Clone for JumpHostRequest {
    fn clone(&self) -> (r: Self)
        ensures
            r@ == self@,
    {
        self.duplicate()
    }
}

/// A target and the servers on the way there, the nearest first.
#[derive(Debug)]
pub struct RouteRequest {
    pub target: ConnectionRequest,
    pub jump_hosts: Vec<JumpHostRequest>,
}

/// What a [`RouteRequest`] says.
#[verifier::ext_equal]
pub struct RouteRequestView {
    pub target: ConnectionRequestView,
    pub jump_hosts: Seq<JumpHostRequestView>,
}

impl View for RouteRequest {
    type V = RouteRequestView;

    open spec fn view(&self) -> RouteRequestView {
        RouteRequestView {
            target: self.target@,
            jump_hosts: self.jump_hosts.deep_view(),
        }
    }
}

impl DeepView for RouteRequest {
    type V = RouteRequestView;

    open spec fn deep_view(&self) -> RouteRequestView {
        self@
    }
}

impl Duplicate for RouteRequest {
    fn duplicate(&self) -> (r: Self) {
        RouteRequest {
            target: self.target.duplicate(),
            jump_hosts: duplicate_list(&self.jump_hosts),
        }
    }
}

impl Clone for RouteRequest {
    fn clone(&self) -> (r: Self)
        ensures
            r@ == self@,
    {
        self.duplicate()
    }
}

/// Whether and how often a connection is kept alive.
#[derive(Debug)]
pub struct KeepaliveSettings {
    pub enabled: bool,
    pub seconds: u64,
}

/// What a [`KeepaliveSettings`] says.
#[verifier::ext_equal]
pub struct KeepaliveSettingsView {
    pub enabled: bool,
    pub seconds: u64,
}

impl View for KeepaliveSettings {
    type V = KeepaliveSettingsView;

    open spec fn view(&self) -> KeepaliveSettingsView {
        KeepaliveSettingsView {
            enabled: self.enabled,
            seconds: self.seconds,
        }
    }
}

impl DeepView for KeepaliveSettings {
    type V = KeepaliveSettingsView;

    open spec fn deep_view(&self) -> KeepaliveSettingsView {
        self@
    }
}

impl Duplicate for KeepaliveSettings {
    fn duplicate(&self) -> (r: Self) {
        KeepaliveSettings {
            enabled: self.enabled,
            seconds: self.seconds,
        }
    }
}

impl Clone for KeepaliveSettings {
    fn clone(&self) -> (r: Self)
        ensures
            r@ == self@,
    {
        self.duplicate()
    }
}

/// What is known of the key that a server showed, and the key that was known before.
#[derive(Debug)]
pub struct HostKeyInspection {
    pub host: String,
    pub port: u16,
    pub algorithm: String,
    pub fingerprint_sha256: String,
    pub status: HostKeyStatus,
    pub previous_fingerprint_sha256: Option<String>,
}

/// What a [`HostKeyInspection`] says.
#[verifier::ext_equal]
pub struct HostKeyInspectionView {
    pub host: Seq<char>,
    pub port: u16,
    pub algorithm: Seq<char>,
    pub fingerprint_sha256: Seq<char>,
    pub status: HostKeyStatus,
    pub previous_fingerprint_sha256: Option<Seq<char>>,
}

impl View for HostKeyInspection {
    type V = HostKeyInspectionView;

    open spec fn view(&self) -> HostKeyInspectionView {
        HostKeyInspectionView {
            host: self.host@,
            port: self.port,
            algorithm: self.algorithm@,
            fingerprint_sha256: self.fingerprint_sha256@,
            status: self.status,
            previous_fingerprint_sha256: self.previous_fingerprint_sha256.deep_view(),
        }
    }
}

impl DeepView for HostKeyInspection {
    type V = HostKeyInspectionView;

    open spec fn deep_view(&self) -> HostKeyInspectionView {
        self@
    }
}

impl Duplicate for HostKeyInspection {
    fn duplicate(&self) -> (r: Self) {
        HostKeyInspection {
            host: self.host.clone(),
            port: self.port,
            algorithm: self.algorithm.clone(),
            fingerprint_sha256: self.fingerprint_sha256.clone(),
            status: self.status,
            previous_fingerprint_sha256: clone_text(&self.previous_fingerprint_sha256),
        }
    }
}

impl Clone for HostKeyInspection {
    fn clone(&self) -> (r: Self)
        ensures
            r@ == self@,
    {
        self.duplicate()
    }
}

/// The user's decision on the key that a server showed.
#[derive(Debug)]
pub struct HostKeyApproval {
    pub action: HostKeyAction,
    pub fingerprint_sha256: String,
}

/// What a [`HostKeyApproval`] says.
#[verifier::ext_equal]
pub struct HostKeyApprovalView {
    pub action: HostKeyAction,
    pub fingerprint_sha256: Seq<char>,
}

impl View for HostKeyApproval {
    type V = HostKeyApprovalView;

    open spec fn view(&self) -> HostKeyApprovalView {
        HostKeyApprovalView {
            action: self.action,
            fingerprint_sha256: self.fingerprint_sha256@,
        }
    }
}

impl DeepView for HostKeyApproval {
    type V = HostKeyApprovalView;

    open spec fn deep_view(&self) -> HostKeyApprovalView {
        self@
    }
}

impl Duplicate for HostKeyApproval {
    fn duplicate(&self) -> (r: Self) {
        HostKeyApproval {
            action: self.action,
            fingerprint_sha256: self.fingerprint_sha256.clone(),
        }
    }
}

impl Clone for HostKeyApproval {
    fn clone(&self) -> (r: Self)
        ensures
            r@ == self@,
    {
        self.duplicate()
    }
}

/// The position and size of the window.
#[derive(Debug)]
pub struct WindowState {
    pub x: i32,
    pub y: i32,
    pub width: u32,
    pub height: u32,
    pub maximized: bool,
}

/// What a [`WindowState`] says.
#[verifier::ext_equal]
pub struct WindowStateView {
    pub x: i32,
    pub y: i32,
    pub width: u32,
    pub height: u32,
    pub maximized: bool,
}

impl View for WindowState {
    type V = WindowStateView;

    open spec fn view(&self) -> WindowStateView {
        WindowStateView {
            x: self.x,
            y: self.y,
            width: self.width,
            height: self.height,
            maximized: self.maximized,
        }
    }
}

impl DeepView for WindowState {
    type V = WindowStateView;

    open spec fn deep_view(&self) -> WindowStateView {
        self@
    }
}

impl Duplicate for WindowState {
    fn duplicate(&self) -> (r: Self) {
        WindowState {
            x: self.x,
            y: self.y,
            width: self.width,
            height: self.height,
            maximized: self.maximized,
        }
    }
}

impl Clone for WindowState {
    fn clone(&self) -> (r: Self)
        ensures
            r@ == self@,
    {
        self.duplicate()
    }
}

/// A transfer of files, as the user interface shows it.
#[derive(Debug)]
pub struct TransferTask {
    pub id: String,
    pub created_at: String,
    pub session_id: String,
    pub file_name: String,
    pub direction: TransferDirection,
    pub source: String,
    pub target: String,
    pub sources: Vec<String>,
    pub target_directory: String,
    pub conflict_policy: TransferConflictPolicy,
    pub transferred_bytes: u64,
    pub total_bytes: Option<u64>,
    pub total_files: u64,
    pub total_directories: u64,
    pub completed_files: u64,
    pub completed_directories: u64,
    pub skipped_files: u64,
    pub bytes_per_second: u64,
    pub current_path: Option<String>,
    pub elapsed_seconds: u64,
    pub status: TransferStatus,
    pub error: Option<String>,
    pub errors: Vec<String>,
}

/// What a [`TransferTask`] says.
#[verifier::ext_equal]
pub struct TransferTaskView {
    pub id: Seq<char>,
    pub created_at: Seq<char>,
    pub session_id: Seq<char>,
    pub file_name: Seq<char>,
    pub direction: TransferDirection,
    pub source: Seq<char>,
    pub target: Seq<char>,
    pub sources: Seq<Seq<char>>,
    pub target_directory: Seq<char>,
    pub conflict_policy: TransferConflictPolicy,
    pub transferred_bytes: u64,
    pub total_bytes: Option<u64>,
    pub total_files: u64,
    pub total_directories: u64,
    pub completed_files: u64,
    pub completed_directories: u64,
    pub skipped_files: u64,
    pub bytes_per_second: u64,
    pub current_path: Option<Seq<char>>,
    pub elapsed_seconds: u64,
    pub status: TransferStatus,
    pub error: Option<Seq<char>>,
    pub errors: Seq<Seq<char>>,
}

impl View for TransferTask {
    type V = TransferTaskView;

    open spec fn view(&self) -> TransferTaskView {
        TransferTaskView {
            id: self.id@,
            created_at: self.created_at@,
            session_id: self.session_id@,
            file_name: self.file_name@,
            direction: self.direction,
            source: self.source@,
            target: self.target@,
            sources: self.sources.deep_view(),
            target_directory: self.target_directory@,
            conflict_policy: self.conflict_policy,
            transferred_bytes: self.transferred_bytes,
            total_bytes: self.total_bytes,
            total_files: self.total_files,
            total_directories: self.total_directories,
            completed_files: self.completed_files,
            completed_directories: self.completed_directories,
            skipped_files: self.skipped_files,
            bytes_per_second: self.bytes_per_second,
            current_path: self.current_path.deep_view(),
            elapsed_seconds: self.elapsed_seconds,
            status: self.status,
            error: self.error.deep_view(),
            errors: self.errors.deep_view(),
        }
    }
}

impl DeepView for TransferTask {
    type V = TransferTaskView;

    open spec fn deep_view(&self) -> TransferTaskView {
        self@
    }
}

impl Duplicate for TransferTask {
    fn duplicate(&self) -> (r: Self) {
        TransferTask {
            id: self.id.clone(),
            created_at: self.created_at.clone(),
            session_id: self.session_id.clone(),
            file_name: self.file_name.clone(),
            direction: self.direction,
            source: self.source.clone(),
            target: self.target.clone(),
            sources: clone_texts(&self.sources),
            target_directory: self.target_directory.clone(),
            conflict_policy: self.conflict_policy,
            transferred_bytes: self.transferred_bytes,
            total_bytes: self.total_bytes,
            total_files: self.total_files,
            total_directories: self.total_directories,
            completed_files: self.completed_files,
            completed_directories: self.completed_directories,
            skipped_files: self.skipped_files,
            bytes_per_second: self.bytes_per_second,
            current_path: clone_text(&self.current_path),
            elapsed_seconds: self.elapsed_seconds,
            status: self.status,
            error: clone_text(&self.error),
            errors: clone_texts(&self.errors),
        }
    }
}

impl Clone for TransferTask {
    fn clone(&self) -> (r: Self)
        ensures
            r@ == self@,
    {
        self.duplicate()
    }
}

/// A tunnel that runs or ran.
#[derive(Debug)]
pub struct TunnelRuntimeState {
    pub runtime_id: String,
    pub profile_id: String,
    pub session_id: String,
    pub status: TunnelStatus,
    pub bound_port: u16,
    pub active_connections: u32,
    pub bytes_up: u64,
    pub bytes_down: u64,
    pub last_error: Option<String>,
}

/// What a [`TunnelRuntimeState`] says.
#[verifier::ext_equal]
pub struct TunnelRuntimeStateView {
    pub runtime_id: Seq<char>,
    pub profile_id: Seq<char>,
    pub session_id: Seq<char>,
    pub status: TunnelStatus,
    pub bound_port: u16,
    pub active_connections: u32,
    pub bytes_up: u64,
    pub bytes_down: u64,
    pub last_error: Option<Seq<char>>,
}

impl View for TunnelRuntimeState {
    type V = TunnelRuntimeStateView;

    open spec fn view(&self) -> TunnelRuntimeStateView {
        TunnelRuntimeStateView {
            runtime_id: self.runtime_id@,
            profile_id: self.profile_id@,
            session_id: self.session_id@,
            status: self.status,
            bound_port: self.bound_port,
            active_connections: self.active_connections,
            bytes_up: self.bytes_up,
            bytes_down: self.bytes_down,
            last_error: self.last_error.deep_view(),
        }
    }
}

impl DeepView for TunnelRuntimeState {
    type V = TunnelRuntimeStateView;

    open spec fn deep_view(&self) -> TunnelRuntimeStateView {
        self@
    }
}

impl Duplicate for TunnelRuntimeState {
    fn duplicate(&self) -> (r: Self) {
        TunnelRuntimeState {
            runtime_id: self.runtime_id.clone(),
            profile_id: self.profile_id.clone(),
            session_id: self.session_id.clone(),
            status: self.status,
            bound_port: self.bound_port,
            active_connections: self.active_connections,
            bytes_up: self.bytes_up,
            bytes_down: self.bytes_down,
            last_error: clone_text(&self.last_error),
        }
    }
}

impl Clone for TunnelRuntimeState {
    fn clone(&self) -> (r: Self)
        ensures
            r@ == self@,
    {
        self.duplicate()
    }
}

/// An entry of a remote directory.
#[derive(Debug)]
pub struct RemoteDirectoryEntry {
    pub name: String,
    pub path: String,
    pub kind: RemoteEntryKind,
    pub size: u64,
    pub modified_at: Option<String>,
    pub permissions: String,
    pub permission_mode: Option<u32>,
    pub uid: Option<u32>,
    pub gid: Option<u32>,
    pub symlink_target: Option<String>,
}

/// What a [`RemoteDirectoryEntry`] says.
#[verifier::ext_equal]
pub struct RemoteDirectoryEntryView {
    pub name: Seq<char>,
    pub path: Seq<char>,
    pub kind: RemoteEntryKind,
    pub size: u64,
    pub modified_at: Option<Seq<char>>,
    pub permissions: Seq<char>,
    pub permission_mode: Option<u32>,
    pub uid: Option<u32>,
    pub gid: Option<u32>,
    pub symlink_target: Option<Seq<char>>,
}

impl View for RemoteDirectoryEntry {
    type V = RemoteDirectoryEntryView;

    open spec fn view(&self) -> RemoteDirectoryEntryView {
        RemoteDirectoryEntryView {
            name: self.name@,
            path: self.path@,
            kind: self.kind,
            size: self.size,
            modified_at: self.modified_at.deep_view(),
            permissions: self.permissions@,
            permission_mode: self.permission_mode,
            uid: self.uid,
            gid: self.gid,
            symlink_target: self.symlink_target.deep_view(),
        }
    }
}

impl DeepView for RemoteDirectoryEntry {
    type V = RemoteDirectoryEntryView;

    open spec fn deep_view(&self) -> RemoteDirectoryEntryView {
        self@
    }
}

impl Duplicate for RemoteDirectoryEntry {
    fn duplicate(&self) -> (r: Self) {
        RemoteDirectoryEntry {
            name: self.name.clone(),
            path: self.path.clone(),
            kind: self.kind,
            size: self.size,
            modified_at: clone_text(&self.modified_at),
            permissions: self.permissions.clone(),
            permission_mode: self.permission_mode,
            uid: self.uid,
            gid: self.gid,
            symlink_target: clone_text(&self.symlink_target),
        }
    }
}

impl Clone for RemoteDirectoryEntry {
    fn clone(&self) -> (r: Self)
        ensures
            r@ == self@,
    {
        self.duplicate()
    }
}

/// A page of a remote directory.
#[derive(Debug)]
pub struct RemoteDirectoryListing {
    pub path: String,
    pub parent_path: Option<String>,
    pub entries: Vec<RemoteDirectoryEntry>,
    pub truncated: bool,
    pub next_cursor: Option<String>,
}

/// What a [`RemoteDirectoryListing`] says.
#[verifier::ext_equal]
pub struct RemoteDirectoryListingView {
    pub path: Seq<char>,
    pub parent_path: Option<Seq<char>>,
    pub entries: Seq<RemoteDirectoryEntryView>,
    pub truncated: bool,
    pub next_cursor: Option<Seq<char>>,
}

impl View for RemoteDirectoryListing {
    type V = RemoteDirectoryListingView;

    open spec fn view(&self) -> RemoteDirectoryListingView {
        RemoteDirectoryListingView {
            path: self.path@,
            parent_path: self.parent_path.deep_view(),
            entries: self.entries.deep_view(),
            truncated: self.truncated,
            next_cursor: self.next_cursor.deep_view(),
        }
    }
}

impl DeepView for RemoteDirectoryListing {
    type V = RemoteDirectoryListingView;

    open spec fn deep_view(&self) -> RemoteDirectoryListingView {
        self@
    }
}

impl Duplicate for RemoteDirectoryListing {
    fn duplicate(&self) -> (r: Self) {
        RemoteDirectoryListing {
            path: self.path.clone(),
            parent_path: clone_text(&self.parent_path),
            entries: duplicate_list(&self.entries),
            truncated: self.truncated,
            next_cursor: clone_text(&self.next_cursor),
        }
    }
}

impl Clone for RemoteDirectoryListing {
    fn clone(&self) -> (r: Self)
        ensures
            r@ == self@,
    {
        self.duplicate()
    }
}

/// A question of a server, as the user interface shows it.
#[derive(Debug)]
pub struct AuthenticationPromptField {
    pub id: String,
    pub text: String,
    pub echo: bool,
}

/// What a [`AuthenticationPromptField`] says.
#[verifier::ext_equal]
pub struct AuthenticationPromptFieldView {
    pub id: Seq<char>,
    pub text: Seq<char>,
    pub echo: bool,
}

impl View for AuthenticationPromptField {
    type V = AuthenticationPromptFieldView;

    open spec fn view(&self) -> AuthenticationPromptFieldView {
        AuthenticationPromptFieldView {
            id: self.id@,
            text: self.text@,
            echo: self.echo,
        }
    }
}

impl DeepView for AuthenticationPromptField {
    type V = AuthenticationPromptFieldView;

    open spec fn deep_view(&self) -> AuthenticationPromptFieldView {
        self@
    }
}

impl Duplicate for AuthenticationPromptField {
    fn duplicate(&self) -> (r: Self) {
        AuthenticationPromptField {
            id: self.id.clone(),
            text: self.text.clone(),
            echo: self.echo,
        }
    }
}

impl Clone for AuthenticationPromptField {
    fn clone(&self) -> (r: Self)
        ensures
            r@ == self@,
    {
        self.duplicate()
    }
}

/// The questions of a server, as the user interface shows them.
#[derive(Debug)]
pub struct AuthenticationPromptPayload {
    pub operation_id: String,
    pub prompt_id: String,
    pub connection_title: String,
    pub target: String,
    pub name: String,
    pub instructions: String,
    pub prompts: Vec<AuthenticationPromptField>,
}

/// What a [`AuthenticationPromptPayload`] says.
#[verifier::ext_equal]
pub struct AuthenticationPromptPayloadView {
    pub operation_id: Seq<char>,
    pub prompt_id: Seq<char>,
    pub connection_title: Seq<char>,
    pub target: Seq<char>,
    pub name: Seq<char>,
    pub instructions: Seq<char>,
    pub prompts: Seq<AuthenticationPromptFieldView>,
}

impl View for AuthenticationPromptPayload {
    type V = AuthenticationPromptPayloadView;

    open spec fn view(&self) -> AuthenticationPromptPayloadView {
        AuthenticationPromptPayloadView {
            operation_id: self.operation_id@,
            prompt_id: self.prompt_id@,
            connection_title: self.connection_title@,
            target: self.target@,
            name: self.name@,
            instructions: self.instructions@,
            prompts: self.prompts.deep_view(),
        }
    }
}

impl DeepView for AuthenticationPromptPayload {
    type V = AuthenticationPromptPayloadView;

    open spec fn deep_view(&self) -> AuthenticationPromptPayloadView {
        self@
    }
}

impl Duplicate for AuthenticationPromptPayload {
    fn duplicate(&self) -> (r: Self) {
        AuthenticationPromptPayload {
            operation_id: self.operation_id.clone(),
            prompt_id: self.prompt_id.clone(),
            connection_title: self.connection_title.clone(),
            target: self.target.clone(),
            name: self.name.clone(),
            instructions: self.instructions.clone(),
            prompts: duplicate_list(&self.prompts),
        }
    }
}

impl Clone for AuthenticationPromptPayload {
    fn clone(&self) -> (r: Self)
        ensures
            r@ == self@,
    {
        self.duplicate()
    }
}

/// A key that the agent holds.
#[derive(Debug)]
pub struct AgentIdentityInfo {
    pub fingerprint_sha256: String,
    pub algorithm: String,
    pub comment: String,
}

/// What a [`AgentIdentityInfo`] says.
#[verifier::ext_equal]
pub struct AgentIdentityInfoView {
    pub fingerprint_sha256: Seq<char>,
    pub algorithm: Seq<char>,
    pub comment: Seq<char>,
}

impl View for AgentIdentityInfo {
    type V = AgentIdentityInfoView;

    open spec fn view(&self) -> AgentIdentityInfoView {
        AgentIdentityInfoView {
            fingerprint_sha256: self.fingerprint_sha256@,
            algorithm: self.algorithm@,
            comment: self.comment@,
        }
    }
}

impl DeepView for AgentIdentityInfo {
    type V = AgentIdentityInfoView;

    open spec fn deep_view(&self) -> AgentIdentityInfoView {
        self@
    }
}

impl Duplicate for AgentIdentityInfo {
    fn duplicate(&self) -> (r: Self) {
        AgentIdentityInfo {
            fingerprint_sha256: self.fingerprint_sha256.clone(),
            algorithm: self.algorithm.clone(),
            comment: self.comment.clone(),
        }
    }
}

impl Clone for AgentIdentityInfo {
    fn clone(&self) -> (r: Self)
        ensures
            r@ == self@,
    {
        self.duplicate()
    }
}

} // verus!
