//! Saving and deleting connections, together with their credentials.

#![verifier::loop_isolation(false)]

use crate::assets::{self, AssetStore, host_is_bad, trimmed_value};
use crate::error::{self, AppError, ErrorView};
use crate::jump::{self, validate_jump_hosts};
use crate::lists::{self, index_of, remove_id};
use crate::models::{
    AssetDocument, AssetDocumentView, AuthType, ConnectionGroup, ConnectionProfile,
    ConnectionProfileView, Duplicate, ProxyProfile, ProxyProfileView, SaveConnectionRequest,
    SaveConnectionRequestView, SaveProxyRequestView, TunnelProfile, TunnelProfileView,
    duplicate_list,
};
use crate::outside::{self, new_id, now};
use crate::text::{
    self, cat2, cat3, cat4, char_len, clone_text, clone_texts, list_has, same, same_option, trimmed,
};
use crate::vault::{
    self, VaultChange, VaultChangeView, VaultEnding, VaultEndingView, VaultPlanView, VaultRun,
    VaultStep, VaultStepView,
};
use vstd::prelude::*;

verus! {

/// What a look at the private key file of a connection found.
#[derive(Debug)]
pub enum KeyFile {
    /// The file could not be looked at, for this reason.
    Unreadable(String),
    /// There is something else at the path.
    NotAFile,
    /// There is a file at the path.
    File,
}

/// What a [`KeyFile`] says.
#[verifier::ext_equal]
pub enum KeyFileView {
    Unreadable(Seq<char>),
    NotAFile,
    File,
}

impl View for KeyFile {
    type V = KeyFileView;

    open spec fn view(&self) -> KeyFileView {
        match self {
            KeyFile::Unreadable(reason) => KeyFileView::Unreadable(reason@),
            KeyFile::NotAFile => KeyFileView::NotAFile,
            KeyFile::File => KeyFileView::File,
        }
    }
}

/// What is wrong with the proxy of a connection that is to be saved.
pub open spec fn save_proxy_fault(proxy: SaveProxyRequestView) -> Option<ErrorView> {
    if assets::bad_host(proxy.host) {
        Some(error::validation_error("代理主机地址无效"@))
    } else {
        match proxy.username {
            Some(username) => if assets::bad_host(username) {
                Some(error::validation_error("代理用户名无效"@))
            } else {
                None
            },
            None => None,
        }
    }
}

/// What is wrong with a connection that is to be saved.
pub open spec fn connection_fault(
    request: SaveConnectionRequestView,
    key_file: KeyFileView,
) -> Option<ErrorView> {
    let proxy_fault = match request.proxy {
        Some(proxy) => save_proxy_fault(proxy),
        None => None,
    };
    let note_length = match request.note {
        Some(note) => note.len(),
        None => 0,
    };
    if text::trim(request.name).len() == 0 || text::trim(request.name).len() > 64 {
        Some(error::validation_error("连接名称长度必须为 1～64 个字符"@))
    } else if assets::bad_host(request.host) {
        Some(error::validation_error("主机地址无效"@))
    } else if text::trim(request.username).len() == 0 || text::trim(request.username).len() > 128 {
        Some(error::validation_error("用户名长度必须为 1～128 个字符"@))
    } else if note_length > 500 {
        Some(error::validation_error("备注不能超过 500 个字符"@))
    } else if !(5 <= request.timeout_seconds <= 60) {
        Some(error::validation_error("连接超时必须为 5～60 秒"@))
    } else if proxy_fault is Some {
        proxy_fault
    } else if request.auth_type == AuthType::PrivateKey {
        match key_file {
            KeyFileView::Unreadable(reason) => Some(
                error::validation_error("无法读取所选私钥文件："@ + reason),
            ),
            KeyFileView::NotAFile => Some(error::validation_error("所选私钥路径不是文件"@)),
            KeyFileView::File => None,
        }
    } else {
        None
    }
}

/// Checks a connection that is to be saved. `key_file` says what stands at the
/// path of its private key, and counts only where it logs in with one.
pub fn validate_connection(request: &SaveConnectionRequest, key_file: &KeyFile) -> (r: Result<
    (),
    AppError,
>)
    ensures
        error::error_of(r) == connection_fault(request@, key_file@),
{
    let name: usize = char_len(trimmed(request.name.as_str()).as_str());
    if name == 0 || name > 64 {
        return Err(AppError::validation("连接名称长度必须为 1～64 个字符"));
    }
    if host_is_bad(request.host.as_str()) {
        return Err(AppError::validation("主机地址无效"));
    }
    let username: usize = char_len(trimmed(request.username.as_str()).as_str());
    if username == 0 || username > 128 {
        return Err(AppError::validation("用户名长度必须为 1～128 个字符"));
    }
    let note: usize = match &request.note {
        Some(note) => char_len(note.as_str()),
        None => 0,
    };
    if note > 500 {
        return Err(AppError::validation("备注不能超过 500 个字符"));
    }
    if request.timeout_seconds < 5 || request.timeout_seconds > 60 {
        return Err(AppError::validation("连接超时必须为 5～60 秒"));
    }
    if let Some(proxy) = &request.proxy {
        if host_is_bad(proxy.host.as_str()) {
            return Err(AppError::validation("代理主机地址无效"));
        }
        if let Some(username) = &proxy.username {
            if host_is_bad(username.as_str()) {
                return Err(AppError::validation("代理用户名无效"));
            }
        }
    }
    if request.auth_type == AuthType::PrivateKey {
        match key_file {
            KeyFile::Unreadable(reason) => {
                return Err(
                    AppError::validation(
                        cat2("无法读取所选私钥文件：", reason.as_str()).as_str(),
                    ),
                );
            },
            KeyFile::NotAFile => {
                return Err(AppError::validation("所选私钥路径不是文件"));
            },
            KeyFile::File => {},
        }
    }
    Ok(())
}

/// The name under which the credential store keeps the secret of a connection.
pub open spec fn credential_name(id: Seq<char>, auth_type: AuthType) -> Seq<char> {
    "TerminalT/connection/"@ + id + "/"@ + (if auth_type == AuthType::Password {
        "password"@
    } else {
        "passphrase"@
    })
}

/// The name under which the credential store keeps the password of a proxy.
pub open spec fn proxy_credential_name(id: Seq<char>) -> Seq<char> {
    "TerminalT/connection/"@ + id + "/proxy-password"@
}

/// The name under which the credential store keeps the secret of a connection.
pub fn credential_reference(id: &str, auth_type: AuthType) -> (r: String)
    ensures
        r@ == credential_name(id@, auth_type),
{
    let kind = if auth_type == AuthType::Password {
        "password"
    } else {
        "passphrase"
    };
    cat4("TerminalT/connection/", id, "/", kind)
}

/// The name under which the credential store keeps the password of a proxy.
pub fn proxy_credential_reference(id: &str) -> (r: String)
    ensures
        r@ == proxy_credential_name(id@),
{
    cat3("TerminalT/connection/", id, "/proxy-password")
}

/// The secret of a connection and the password of its proxy never have the same
/// name in the credential store.
pub proof fn credential_names_differ(id: Seq<char>, auth_type: AuthType)
    ensures
        credential_name(id, auth_type) != proxy_credential_name(id),
{
    reveal_strlit("password");
    reveal_strlit("passphrase");
    reveal_strlit("/");
    reveal_strlit("/proxy-password");
    assert(credential_name(id, auth_type).len() != proxy_credential_name(id).len());
}

/// The saved connection with this id.
pub open spec fn existing(document: AssetDocumentView, id: Seq<char>) -> Option<
    ConnectionProfileView,
> {
    if lists::has_id::<ConnectionProfile>(document.connections, id) {
        Some(document.connections[lists::place_of::<ConnectionProfile>(document.connections, id)])
    } else {
        None
    }
}

/// The reference to the saved secret of a connection.
pub open spec fn reference_of(connection: Option<ConnectionProfileView>) -> Option<Seq<char>> {
    match connection {
        Some(connection) => connection.credential_ref,
        None => None,
    }
}

/// The reference to the saved password of a connection's proxy.
pub open spec fn proxy_reference_of(connection: Option<ConnectionProfileView>) -> Option<
    Seq<char>,
> {
    match connection {
        Some(connection) => match connection.proxy {
            Some(proxy) => proxy.credential_ref,
            None => None,
        },
        None => None,
    }
}

/// What has to be read from the credential store before a connection is saved or
/// deleted: the secrets behind the references that it has.
#[derive(Debug)]
pub struct CredentialReads {
    pub id: String,
    pub reference: Option<String>,
    pub proxy_reference: Option<String>,
}

/// What a [`CredentialReads`] says.
#[verifier::ext_equal]
pub struct CredentialReadsView {
    pub id: Seq<char>,
    pub reference: Option<Seq<char>>,
    pub proxy_reference: Option<Seq<char>>,
}

impl View for CredentialReads {
    type V = CredentialReadsView;

    open spec fn view(&self) -> CredentialReadsView {
        CredentialReadsView {
            id: self.id@,
            reference: self.reference.deep_view(),
            proxy_reference: self.proxy_reference.deep_view(),
        }
    }
}

impl DeepView for CredentialReads {
    type V = CredentialReadsView;

    open spec fn deep_view(&self) -> CredentialReadsView {
        self@
    }
}

/// What has to be read before a connection is saved, or why it cannot be saved.
pub open spec fn save_begins(
    document: AssetDocumentView,
    request: SaveConnectionRequestView,
    key_file: KeyFileView,
    new_id: Seq<char>,
) -> Result<CredentialReadsView, ErrorView> {
    let id = match request.id {
        Some(id) => id,
        None => new_id,
    };
    let before = existing(document, id);
    match connection_fault(request, key_file) {
        Some(fault) => Err(fault),
        None => if !lists::has_id::<ConnectionGroup>(document.groups, request.group_id) {
            Err(error::asset_not_found_error("group"@, request.group_id))
        } else if request.id is Some && before is None {
            Err(error::asset_not_found_error("connection"@, id))
        } else {
            match jump::jump_fault(document.connections, id, request.jump_host_ids) {
                Some(fault) => Err(fault),
                None => Ok(
                    CredentialReadsView {
                        id,
                        reference: reference_of(before),
                        proxy_reference: proxy_reference_of(before),
                    },
                ),
            }
        },
    }
}

/// The reference that a connection has once it is saved.
pub open spec fn new_reference(request: SaveConnectionRequestView, id: Seq<char>) -> Option<
    Seq<char>,
> {
    if request.remember_credential && (request.auth_type == AuthType::Password || request.auth_type
        == AuthType::PrivateKey) {
        Some(credential_name(id, request.auth_type))
    } else {
        None
    }
}

/// The reference that the proxy of a connection has once it is saved.
pub open spec fn new_proxy_reference(request: SaveConnectionRequestView, id: Seq<char>) -> Option<
    Seq<char>,
> {
    match request.proxy {
        Some(proxy) => if proxy.remember_credential && proxy.username is Some {
            Some(proxy_credential_name(id))
        } else {
            None
        },
        None => None,
    }
}

/// A text, or nothing where it is empty.
pub open spec fn nonempty(value: Option<Seq<char>>) -> Option<Seq<char>> {
    match value {
        Some(text) => if text.len() == 0 {
            None
        } else {
            Some(text)
        },
        None => None,
    }
}

/// The password that was entered for the proxy.
pub open spec fn entered_proxy_password(request: SaveConnectionRequestView) -> Option<Seq<char>> {
    match request.proxy {
        Some(proxy) => nonempty(proxy.password),
        None => None,
    }
}

/// The connection as it is saved.
pub open spec fn saved_profile(
    request: SaveConnectionRequestView,
    before: Option<ConnectionProfileView>,
    id: Seq<char>,
    now: Seq<char>,
) -> ConnectionProfileView {
    ConnectionProfileView {
        id,
        name: text::trim(request.name),
        host: text::trim(request.host),
        port: request.port,
        username: text::trim(request.username),
        auth_type: request.auth_type,
        credential_ref: new_reference(request, id),
        private_key_path: nonempty(request.private_key_path),
        agent_key_fingerprint: nonempty(request.agent_key_fingerprint),
        proxy: match request.proxy {
            Some(proxy) => Some(
                ProxyProfileView {
                    proxy_type: proxy.proxy_type,
                    host: text::trim(proxy.host),
                    port: proxy.port,
                    username: assets::trimmed_option(proxy.username),
                    credential_ref: new_proxy_reference(request, id),
                },
            ),
            None => None,
        },
        jump_host_ids: request.jump_host_ids,
        group_id: request.group_id,
        note: assets::trimmed_option(request.note),
        timeout_seconds: request.timeout_seconds,
        last_connected_at: match before {
            Some(before) => before.last_connected_at,
            None => None,
        },
        created_at: match before {
            Some(before) => before.created_at,
            None => now,
        },
        updated_at: now,
    }
}

/// The saved data once a connection is saved: it stands last, and once.
pub open spec fn with_connection(
    document: AssetDocumentView,
    profile: ConnectionProfileView,
) -> AssetDocumentView {
    AssetDocumentView {
        connections: lists::others::<ConnectionProfile>(document.connections, profile.id).push(profile),
        ..document
    }
}

/// The change that stores a secret.
pub open spec fn store(reference: Seq<char>, secret: Seq<char>) -> VaultChangeView {
    VaultChangeView::Store { reference, secret }
}

/// The change that deletes a secret.
pub open spec fn delete(reference: Seq<char>) -> VaultChangeView {
    VaultChangeView::Delete { reference }
}

/// The changes that set the credential store back: the new secret is deleted and
/// the old one stored again.
pub open spec fn rollback(
    new_ref: Option<Seq<char>>,
    old_ref: Option<Seq<char>>,
    old_secret: Option<Seq<char>>,
) -> Seq<VaultChangeView> {
    (match new_ref {
        Some(reference) => seq![delete(reference)],
        None => Seq::empty(),
    }) + (match (old_ref, old_secret) {
        (Some(reference), Some(secret)) => seq![store(reference, secret)],
        _ => Seq::empty(),
    })
}

/// A step, and what is done where it fails.
pub open spec fn step(change: VaultChangeView, undo: Seq<VaultChangeView>) -> VaultStepView {
    VaultStepView { change, undo }
}

/// The step that stores a secret, where there is a reference and a secret.
pub open spec fn store_step(reference: Option<Seq<char>>, secret: Option<Seq<char>>) -> Seq<
    VaultStepView,
> {
    match (reference, secret) {
        (Some(reference), Some(secret)) => seq![step(store(reference, secret), Seq::empty())],
        _ => Seq::empty(),
    }
}

/// The step that deletes a secret whose reference was given up.
pub open spec fn drop_step(
    old_ref: Option<Seq<char>>,
    new_ref: Option<Seq<char>>,
    undo: Seq<VaultChangeView>,
) -> Seq<VaultStepView> {
    match old_ref {
        Some(reference) => if old_ref != new_ref {
            seq![step(delete(reference), undo)]
        } else {
            Seq::empty()
        },
        None => Seq::empty(),
    }
}

/// The error for a credential that is to be saved and was not entered.
pub open spec fn credential_required_error() -> ErrorView {
    error::credential_store_error(
        "CREDENTIAL-REQUIRED"@,
        "请输入需要保存的凭据"@,
        "remember credential requested without a secret"@,
        false,
    )
}

/// The error for a proxy password that is to be saved and was not entered.
pub open spec fn proxy_credential_required_error() -> ErrorView {
    error::credential_store_error(
        "PROXY-CREDENTIAL-REQUIRED"@,
        "请输入需要保存的代理密码"@,
        "proxy credential storage requested without a password"@,
        false,
    )
}

/// The changes that save a connection: new secrets are stored, then those whose
/// reference was given up are deleted, then the saved data are written.
pub open spec fn save_plan(
    request: SaveConnectionRequestView,
    reads: CredentialReadsView,
    secret: Option<Seq<char>>,
    proxy_secret: Option<Seq<char>>,
) -> Result<VaultPlanView, ErrorView> {
    let new_ref = new_reference(request, reads.id);
    let new_proxy_ref = new_proxy_reference(request, reads.id);
    let entered = nonempty(request.secret);
    let entered_proxy = entered_proxy_password(request);
    let undo = rollback(new_ref, reads.reference, secret);
    let undo_proxy = rollback(new_proxy_ref, reads.proxy_reference, proxy_secret);
    let stored = store_step(new_ref, entered);
    if new_ref is Some && entered is None && reads.reference != new_ref {
        Err(credential_required_error())
    } else if new_proxy_ref is Some && entered_proxy is None && reads.proxy_reference
        != new_proxy_ref {
        Ok(
            VaultPlanView {
                steps: stored,
                ending: VaultEndingView::Refuse { undo, error: proxy_credential_required_error() },
            },
        )
    } else {
        Ok(
            VaultPlanView {
                steps: stored + store_step(new_proxy_ref, entered_proxy) + drop_step(
                    reads.reference,
                    new_ref,
                    rollback(new_ref, None, None),
                ) + drop_step(reads.proxy_reference, new_proxy_ref, undo + undo_proxy),
                ending: VaultEndingView::Write { undo: undo + undo_proxy },
            },
        )
    }
}

/// What the credential store answered, or its error.
pub open spec fn answer(found: Result<Option<String>, AppError>) -> Result<
    Option<Seq<char>>,
    ErrorView,
> {
    match found {
        Ok(secret) => Ok(secret.deep_view()),
        Err(error) => Err(error@),
    }
}

/// A connection that is about to be saved: the changes to the credential store,
/// the connection, and the data that are written.
pub struct SavePlan {
    pub run: VaultRun,
    pub profile: ConnectionProfile,
    pub document: AssetDocument,
}

/// A connection that is about to be deleted.
pub struct DeletePlan {
    pub run: VaultRun,
    pub document: AssetDocument,
}

/// The changes that delete a connection: its secrets are deleted, then the saved
/// data are written.
pub open spec fn delete_plan(
    reads: CredentialReadsView,
    secret: Option<Seq<char>>,
    proxy_secret: Option<Seq<char>>,
) -> VaultPlanView {
    let undo = rollback(None, reads.reference, secret);
    VaultPlanView {
        steps: drop_step(reads.reference, None, Seq::empty()) + drop_step(
            reads.proxy_reference,
            None,
            undo,
        ),
        ending: VaultEndingView::Write {
            undo: undo + rollback(None, reads.proxy_reference, proxy_secret),
        },
    }
}

/// Whether another connection jumps through this one.
pub open spec fn is_jump_host(connections: Seq<ConnectionProfileView>, id: Seq<char>) -> bool {
    exists|i: int|
        0 <= i < connections.len() && (#[trigger] connections[i]).id != id
            && connections[i].jump_host_ids.contains(id)
}

/// Whether a tunnel belongs to this connection.
pub open spec fn has_tunnel(tunnels: Seq<TunnelProfileView>, id: Seq<char>) -> bool {
    exists|i: int| 0 <= i < tunnels.len() && (#[trigger] tunnels[i]).connection_id == id
}

/// What has to be read before a connection is deleted, or why it cannot be
/// deleted.
pub open spec fn delete_begins(document: AssetDocumentView, id: Seq<char>) -> Result<
    CredentialReadsView,
    ErrorView,
> {
    let before = existing(document, id);
    if before is None {
        Err(error::asset_not_found_error("connection"@, id))
    } else if is_jump_host(document.connections, id) {
        Err(error::validation_error("该连接正被跳板链引用，请先解除引用"@))
    } else if has_tunnel(document.tunnels, id) {
        Err(error::validation_error("该连接仍有关联隧道规则，请先删除隧道规则"@))
    } else {
        Ok(
            CredentialReadsView {
                id,
                reference: reference_of(before),
                proxy_reference: proxy_reference_of(before),
            },
        )
    }
}

/// The saved data without a connection.
pub open spec fn without_connection(document: AssetDocumentView, id: Seq<char>) -> AssetDocumentView {
    AssetDocumentView {
        connections: lists::others::<ConnectionProfile>(document.connections, id),
        ..document
    }
}

/// A text, or nothing where it is empty.
pub fn nonempty_text(value: &Option<String>) -> (r: Option<String>)
    ensures
        r.deep_view() == nonempty(value.deep_view()),
{
    match value {
        Some(text) => if char_len(text.as_str()) == 0 {
            None
        } else {
            Some(text.clone())
        },
        None => None,
    }
}

/// The changes that set the credential store back.
pub fn rollback_credential(
    new_ref: &Option<String>,
    old_ref: &Option<String>,
    old_secret: &Option<String>,
) -> (r: Vec<VaultChange>)
    ensures
        r.deep_view() == rollback(new_ref.deep_view(), old_ref.deep_view(), old_secret.deep_view()),
{
    let mut r: Vec<VaultChange> = Vec::new();
    if let Some(reference) = new_ref {
        r.push(VaultChange::Delete { reference: reference.clone() });
    }
    if let Some(reference) = old_ref {
        if let Some(secret) = old_secret {
            r.push(VaultChange::Store { reference: reference.clone(), secret: secret.clone() });
        }
    }
    assert(r.deep_view() =~= rollback(
        new_ref.deep_view(),
        old_ref.deep_view(),
        old_secret.deep_view(),
    ));
    r
}

/// Adds the step that stores a secret.
fn push_store(steps: &mut Vec<VaultStep>, reference: &Option<String>, secret: &Option<String>)
    ensures
        final(steps).deep_view() == old(steps).deep_view() + store_step(
            reference.deep_view(),
            secret.deep_view(),
        ),
{
    let ghost before = steps.deep_view();
    if let Some(reference) = reference {
        if let Some(secret) = secret {
            let item = VaultStep {
                change: VaultChange::Store { reference: reference.clone(), secret: secret.clone() },
                undo: Vec::new(),
            };
            assert(item.undo.deep_view() =~= Seq::empty());
            steps.push(item);
        }
    }
    assert(steps.deep_view() =~= before + store_step(reference.deep_view(), secret.deep_view()));
}

/// Adds the step that deletes a secret whose reference was given up.
fn push_drop(
    steps: &mut Vec<VaultStep>,
    old_ref: &Option<String>,
    new_ref: &Option<String>,
    undo: Vec<VaultChange>,
)
    ensures
        final(steps).deep_view() == old(steps).deep_view() + drop_step(
            old_ref.deep_view(),
            new_ref.deep_view(),
            undo.deep_view(),
        ),
{
    let ghost before = steps.deep_view();
    let ghost undo_view = undo.deep_view();
    if let Some(reference) = old_ref {
        if !same_option(old_ref, new_ref) {
            let item = VaultStep {
                change: VaultChange::Delete { reference: reference.clone() },
                undo,
            };
            steps.push(item);
        }
    }
    assert(steps.deep_view() =~= before + drop_step(
        old_ref.deep_view(),
        new_ref.deep_view(),
        undo_view,
    ));
}

/// Two lists of changes one after the other.
fn both(a: &Vec<VaultChange>, b: &Vec<VaultChange>) -> (r: Vec<VaultChange>)
    ensures
        r.deep_view() == a.deep_view() + b.deep_view(),
{
    let mut r = duplicate_list(a);
    let mut i: usize = 0;
    assert(b.deep_view().take(0) =~= Seq::empty());
    assert(r.deep_view() =~= a.deep_view() + b.deep_view().take(0));
    while i < b.len()
        invariant
            i <= b@.len(),
            r.deep_view() == a.deep_view() + b.deep_view().take(i as int),
        decreases b@.len() - i,
    {
        let ghost done = r.deep_view();
        let item = b[i].duplicate();
        let ghost view = item@;
        r.push(item);
        assert(r.deep_view() =~= done.push(view));
        assert(b.deep_view().take(i + 1) =~= b.deep_view().take(i as int).push(view));
        assert(r.deep_view() =~= a.deep_view() + b.deep_view().take(i + 1));
        i = i + 1;
    }
    assert(b.deep_view().take(i as int) =~= b.deep_view());
    r
}

/// The changes that save a connection, given the secrets that the credential
/// store holds for it.
pub fn plan_changes(
    request: &SaveConnectionRequest,
    reads: &CredentialReads,
    secret: &Option<String>,
    proxy_secret: &Option<String>,
) -> (r: Result<VaultRun, AppError>)
    ensures
        match save_plan(request@, reads@, secret.deep_view(), proxy_secret.deep_view()) {
            Ok(plan) => r matches Ok(run) && run.wf() && run.plan() == plan && run.state() == vault::doing(
                plan,
                0,
            ),
            Err(error) => error::error_of(r) == Some(error),
        },
{
    let new_ref = saved_reference(request, reads.id.as_str());
    let new_proxy_ref = saved_proxy_reference(request, reads.id.as_str());
    let entered = nonempty_text(&request.secret);
    let entered_proxy = match &request.proxy {
        Some(proxy) => nonempty_text(&proxy.password),
        None => None,
    };
    if new_ref.is_some() && entered.is_none() && !same_option(&reads.reference, &new_ref) {
        return Err(
            AppError::credential(
                "CREDENTIAL-REQUIRED",
                "请输入需要保存的凭据",
                "remember credential requested without a secret",
                false,
            ),
        );
    }
    let undo = rollback_credential(&new_ref, &reads.reference, secret);
    let mut steps: Vec<VaultStep> = Vec::new();
    assert(steps.deep_view() =~= Seq::empty());
    push_store(&mut steps, &new_ref, &entered);
    assert(steps.deep_view() =~= store_step(new_ref.deep_view(), entered.deep_view()));
    if new_proxy_ref.is_some() && entered_proxy.is_none() && !same_option(
        &reads.proxy_reference,
        &new_proxy_ref,
    ) {
        return Ok(
            VaultRun::new(
                steps,
                VaultEnding::Refuse {
                    undo,
                    error: AppError::credential(
                        "PROXY-CREDENTIAL-REQUIRED",
                        "请输入需要保存的代理密码",
                        "proxy credential storage requested without a password",
                        false,
                    ),
                },
            ),
        );
    }
    let undo_proxy = rollback_credential(&new_proxy_ref, &reads.proxy_reference, proxy_secret);
    push_store(&mut steps, &new_proxy_ref, &entered_proxy);
    push_drop(
        &mut steps,
        &reads.reference,
        &new_ref,
        rollback_credential(&new_ref, &None, &None),
    );
    push_drop(&mut steps, &reads.proxy_reference, &new_proxy_ref, both(&undo, &undo_proxy));
    Ok(VaultRun::new(steps, VaultEnding::Write { undo: both(&undo, &undo_proxy) }))
}

/// The reference that a connection has once it is saved.
fn saved_reference(request: &SaveConnectionRequest, id: &str) -> (r: Option<String>)
    ensures
        r.deep_view() == new_reference(request@, id@),
{
    if request.remember_credential && (request.auth_type == AuthType::Password || request.auth_type
        == AuthType::PrivateKey) {
        Some(credential_reference(id, request.auth_type))
    } else {
        None
    }
}

/// The reference that the proxy of a connection has once it is saved.
fn saved_proxy_reference(request: &SaveConnectionRequest, id: &str) -> (r: Option<String>)
    ensures
        r.deep_view() == new_proxy_reference(request@, id@),
{
    match &request.proxy {
        Some(proxy) => if proxy.remember_credential && proxy.username.is_some() {
            Some(proxy_credential_reference(id))
        } else {
            None
        },
        None => None,
    }
}

/// The connection as it is saved.
fn make_profile(
    request: &SaveConnectionRequest,
    before: &Option<ConnectionProfile>,
    id: &str,
    now: &str,
) -> (r: ConnectionProfile)
    ensures
        r@ == saved_profile(request@, before.deep_view(), id@, now@),
{
    let proxy_reference = saved_proxy_reference(request, id);
    ConnectionProfile {
        id: id.to_owned(),
        name: trimmed(request.name.as_str()),
        host: trimmed(request.host.as_str()),
        port: request.port,
        username: trimmed(request.username.as_str()),
        auth_type: request.auth_type,
        credential_ref: saved_reference(request, id),
        private_key_path: nonempty_text(&request.private_key_path),
        agent_key_fingerprint: nonempty_text(&request.agent_key_fingerprint),
        proxy: match &request.proxy {
            Some(proxy) => Some(
                ProxyProfile {
                    proxy_type: proxy.proxy_type,
                    host: trimmed(proxy.host.as_str()),
                    port: proxy.port,
                    username: trimmed_value(&proxy.username),
                    credential_ref: proxy_reference,
                },
            ),
            None => None,
        },
        jump_host_ids: clone_texts(&request.jump_host_ids),
        group_id: request.group_id.clone(),
        note: trimmed_value(&request.note),
        timeout_seconds: request.timeout_seconds,
        last_connected_at: match before {
            Some(before) => clone_text(&before.last_connected_at),
            None => None,
        },
        created_at: match before {
            Some(before) => before.created_at.clone(),
            None => now.to_owned(),
        },
        updated_at: now.to_owned(),
    }
}

impl AssetStore {
    /// The saved connection with this id.
    fn existing_connection(&self, id: &str) -> (r: Option<ConnectionProfile>)
        ensures
            r.deep_view() == existing(self@, id@),
    {
        match index_of(&self.document.connections, id) {
            Some(at) => Some(self.document.connections[at].duplicate()),
            None => None,
        }
    }

    /// Checks a connection that is to be saved, and says what has to be read from
    /// the credential store first. `new_id` is the id of a new connection.
    pub fn begin_save_at(
        &self,
        request: &SaveConnectionRequest,
        key_file: &KeyFile,
        new_id: String,
    ) -> (r: Result<CredentialReads, AppError>)
        ensures
            error::ends_as(r, save_begins(self@, request@, key_file@, new_id@)),
    {
        validate_connection(request, key_file)?;
        if index_of(&self.document.groups, request.group_id.as_str()).is_none() {
            return Err(AppError::asset_not_found("group", request.group_id.as_str()));
        }
        let id = match clone_text(&request.id) {
            Some(id) => id,
            None => new_id,
        };
        let before = self.existing_connection(id.as_str());
        if request.id.is_some() && before.is_none() {
            return Err(AppError::asset_not_found("connection", id.as_str()));
        }
        validate_jump_hosts(&self.document.connections, id.as_str(), &request.jump_host_ids)?;
        Ok(credential_reads(id, &before))
    }

    /// Checks a connection that is to be saved, and says what has to be read from
    /// the credential store first.
    pub fn begin_save(&self, request: &SaveConnectionRequest, key_file: &KeyFile) -> (r: Result<
        CredentialReads,
        AppError,
    >)
        ensures
            exists|new_id: Seq<char>|
                outside::is_id_text(new_id) && #[trigger] error::ends_as(
                    r,
                    save_begins(self@, request@, key_file@, new_id),
                ),
    {
        let id = new_id();
        self.begin_save_at(request, key_file, id)
    }

    /// What saving a connection changes, given the answers of the credential
    /// store.
    pub fn save_connection_at(
        &self,
        request: &SaveConnectionRequest,
        reads: &CredentialReads,
        secret: Result<Option<String>, AppError>,
        proxy_secret: Result<Option<String>, AppError>,
        now: &str,
    ) -> (r: Result<SavePlan, AppError>)
        ensures
            match save_outcome(request@, reads@, answer(secret), answer(proxy_secret)) {
                Ok(plan) => r matches Ok(save) && save.run.wf() && save.run.plan() == plan
                    && save.run.state() == vault::doing(plan, 0) && save.profile@ == saved_profile(
                    request@,
                    existing(self@, reads.id@),
                    reads.id@,
                    now@,
                ) && save.document@ == with_connection(self@, save.profile@),
                Err(error) => error::error_of(r) == Some(error),
            },
    {
        let secret = match secret {
            Ok(secret) => secret,
            Err(error) => {
                return Err(error);
            },
        };
        let proxy_secret = match proxy_secret {
            Ok(secret) => secret,
            Err(error) => {
                return Err(error);
            },
        };
        let run = match plan_changes(request, reads, &secret, &proxy_secret) {
            Ok(run) => run,
            Err(error) => {
                return Err(error);
            },
        };
        let before = self.existing_connection(reads.id.as_str());
        let profile = make_profile(request, &before, reads.id.as_str(), now);
        let mut document = self.document.duplicate();
        remove_id(&mut document.connections, reads.id.as_str());
        document.connections.push(profile.duplicate());
        assert(document.connections.deep_view() =~= lists::others::<ConnectionProfile>(
            self@.connections,
            reads.id@,
        ).push(profile@));
        Ok(SavePlan { run, profile, document })
    }

    /// What saving a connection changes, given the answers of the credential
    /// store.
    pub fn save_connection(
        &self,
        request: &SaveConnectionRequest,
        reads: &CredentialReads,
        secret: Result<Option<String>, AppError>,
        proxy_secret: Result<Option<String>, AppError>,
    ) -> (r: Result<SavePlan, AppError>)
        ensures
            match save_outcome(request@, reads@, answer(secret), answer(proxy_secret)) {
                Ok(plan) => r matches Ok(save) && save.run.wf() && save.run.plan() == plan
                    && save.run.state() == vault::doing(plan, 0) && (exists|now: Seq<char>|
                    save.profile@ == #[trigger] saved_profile(
                        request@,
                        existing(self@, reads.id@),
                        reads.id@,
                        now,
                    )) && save.document@ == with_connection(self@, save.profile@),
                Err(error) => error::error_of(r) == Some(error),
            },
    {
        let time = now();
        self.save_connection_at(request, reads, secret, proxy_secret, time.as_str())
    }

    /// Says what has to be read from the credential store before a connection is
    /// deleted, or why it cannot be deleted.
    pub fn begin_delete(&self, id: &str) -> (r: Result<CredentialReads, AppError>)
        ensures
            error::ends_as(r, delete_begins(self@, id@)),
    {
        let before = self.existing_connection(id);
        if before.is_none() {
            return Err(AppError::asset_not_found("connection", id));
        }
        if jump_host_in_use(&self.document.connections, id) {
            return Err(AppError::validation("该连接正被跳板链引用，请先解除引用"));
        }
        if tunnel_in_use(&self.document.tunnels, id) {
            return Err(
                AppError::validation("该连接仍有关联隧道规则，请先删除隧道规则"),
            );
        }
        Ok(credential_reads(id.to_owned(), &before))
    }

    /// What deleting a connection changes, given the answers of the credential
    /// store.
    pub fn delete_connection(
        &self,
        reads: &CredentialReads,
        secret: Result<Option<String>, AppError>,
        proxy_secret: Result<Option<String>, AppError>,
    ) -> (r: Result<DeletePlan, AppError>)
        ensures
            match (answer(secret), answer(proxy_secret)) {
                (Err(error), _) => error::error_of(r) == Some(error),
                (Ok(_), Err(error)) => error::error_of(r) == Some(error),
                (Ok(secret), Ok(proxy_secret)) => r matches Ok(delete) && delete.run.wf()
                    && delete.run.plan() == delete_plan(reads@, secret, proxy_secret)
                    && delete.run.state() == vault::doing(delete.run.plan(), 0) && delete.document@
                    == without_connection(self@, reads.id@),
            },
    {
        let secret = match secret {
            Ok(secret) => secret,
            Err(error) => {
                return Err(error);
            },
        };
        let proxy_secret = match proxy_secret {
            Ok(secret) => secret,
            Err(error) => {
                return Err(error);
            },
        };
        let undo = rollback_credential(&None, &reads.reference, &secret);
        let undo_proxy = rollback_credential(&None, &reads.proxy_reference, &proxy_secret);
        let mut steps: Vec<VaultStep> = Vec::new();
        let nothing: Vec<VaultChange> = Vec::new();
        assert(nothing.deep_view() =~= Seq::empty());
        assert(steps.deep_view() =~= Seq::empty());
        push_drop(&mut steps, &reads.reference, &None, nothing);
        assert(steps.deep_view() =~= drop_step(reads@.reference, None, Seq::empty()));
        push_drop(&mut steps, &reads.proxy_reference, &None, duplicate_list(&undo));
        let run = VaultRun::new(steps, VaultEnding::Write { undo: both(&undo, &undo_proxy) });
        let mut document = self.document.duplicate();
        remove_id(&mut document.connections, reads.id.as_str());
        Ok(DeletePlan { run, document })
    }
}

/// The changes that save a connection, given the answers of the credential store.
pub open spec fn save_outcome(
    request: SaveConnectionRequestView,
    reads: CredentialReadsView,
    secret: Result<Option<Seq<char>>, ErrorView>,
    proxy_secret: Result<Option<Seq<char>>, ErrorView>,
) -> Result<VaultPlanView, ErrorView> {
    match (secret, proxy_secret) {
        (Err(error), _) => Err(error),
        (Ok(_), Err(error)) => Err(error),
        (Ok(secret), Ok(proxy_secret)) => save_plan(request, reads, secret, proxy_secret),
    }
}

/// What has to be read for this connection.
fn credential_reads(id: String, before: &Option<ConnectionProfile>) -> (r: CredentialReads)
    ensures
        r@ == (CredentialReadsView {
            id: id@,
            reference: reference_of(before.deep_view()),
            proxy_reference: proxy_reference_of(before.deep_view()),
        }),
{
    match before {
        Some(before) => CredentialReads {
            id,
            reference: clone_text(&before.credential_ref),
            proxy_reference: match &before.proxy {
                Some(proxy) => clone_text(&proxy.credential_ref),
                None => None,
            },
        },
        None => CredentialReads { id, reference: None, proxy_reference: None },
    }
}

/// Whether another connection jumps through this one.
fn jump_host_in_use(connections: &Vec<ConnectionProfile>, id: &str) -> (r: bool)
    ensures
        r == is_jump_host(connections.deep_view(), id@),
{
    let ghost view = connections.deep_view();
    let mut i: usize = 0;
    while i < connections.len()
        invariant
            i <= connections@.len(),
            forall|j: int|
                0 <= j < i ==> !((#[trigger] view[j]).id != id@ && view[j].jump_host_ids.contains(
                    id@,
                )),
        decreases connections@.len() - i,
    {
        assert(view[i as int] == connections@[i as int]@);
        if !same(connections[i].id.as_str(), id) && list_has(&connections[i].jump_host_ids, id) {
            return true;
        }
        i = i + 1;
    }
    false
}

/// Whether a tunnel belongs to this connection.
fn tunnel_in_use(tunnels: &Vec<TunnelProfile>, id: &str) -> (r: bool)
    ensures
        r == has_tunnel(tunnels.deep_view(), id@),
{
    let ghost view = tunnels.deep_view();
    let mut i: usize = 0;
    while i < tunnels.len()
        invariant
            i <= tunnels@.len(),
            forall|j: int| 0 <= j < i ==> (#[trigger] view[j]).connection_id != id@,
        decreases tunnels@.len() - i,
    {
        assert(view[i as int] == tunnels@[i as int]@);
        if same(tunnels[i].connection_id.as_str(), id) {
            return true;
        }
        i = i + 1;
    }
    false
}

/// What a saved credential store holds under an optional reference.
pub open spec fn looked_up(
    vault: Map<Seq<char>, Seq<char>>,
    reference: Option<Seq<char>>,
) -> Option<Seq<char>> {
    match reference {
        Some(reference) => if vault.contains_key(reference) {
            Some(vault[reference])
        } else {
            None
        },
        None => None,
    }
}

/// Whether the references of a connection are as this library gives them, and a
/// reference that it does not have yet is free in the credential store.
pub open spec fn references_fit(
    request: SaveConnectionRequestView,
    reads: CredentialReadsView,
    vault: Map<Seq<char>, Seq<char>>,
) -> bool {
    let new_ref = new_reference(request, reads.id);
    let new_proxy_ref = new_proxy_reference(request, reads.id);
    &&& reads.reference matches Some(reference) ==> exists|auth_type: AuthType|
        reference == #[trigger] credential_name(reads.id, auth_type)
    &&& reads.proxy_reference matches Some(reference) ==> reference == proxy_credential_name(
        reads.id,
    )
    &&& new_ref matches Some(reference) ==> reads.reference == new_ref || !vault.contains_key(
        reference,
    )
    &&& new_proxy_ref matches Some(reference) ==> reads.proxy_reference == new_proxy_ref
        || !vault.contains_key(reference)
}

/// What a credential store holds after a secret was stored, where there is a
/// reference and a secret.
pub open spec fn stored_in(
    vault: Map<Seq<char>, Seq<char>>,
    reference: Option<Seq<char>>,
    secret: Option<Seq<char>>,
) -> Map<Seq<char>, Seq<char>> {
    match (reference, secret) {
        (Some(reference), Some(secret)) => vault.insert(reference, secret),
        _ => vault,
    }
}

/// What a credential store holds after a secret was deleted whose reference was
/// given up.
pub open spec fn dropped_in(
    vault: Map<Seq<char>, Seq<char>>,
    old_ref: Option<Seq<char>>,
    new_ref: Option<Seq<char>>,
) -> Map<Seq<char>, Seq<char>> {
    match old_ref {
        Some(reference) => if old_ref != new_ref {
            vault.remove(reference)
        } else {
            vault
        },
        None => vault,
    }
}

/// What a credential store holds after a change was taken back.
pub open spec fn rolled_back(
    vault: Map<Seq<char>, Seq<char>>,
    new_ref: Option<Seq<char>>,
    old_ref: Option<Seq<char>>,
    old_secret: Option<Seq<char>>,
) -> Map<Seq<char>, Seq<char>> {
    stored_in(
        match new_ref {
            Some(reference) => vault.remove(reference),
            None => vault,
        },
        old_ref,
        old_secret,
    )
}

/// What the steps of a plan do to a credential store.
proof fn lemma_step_effects(
    vault: Map<Seq<char>, Seq<char>>,
    old_ref: Option<Seq<char>>,
    new_ref: Option<Seq<char>>,
    secret: Option<Seq<char>>,
    undo: Seq<VaultChangeView>,
)
    ensures
        vault::steps_made(store_step(new_ref, secret), vault) == stored_in(vault, new_ref, secret),
        vault::steps_made(drop_step(old_ref, new_ref, undo), vault) == dropped_in(
            vault,
            old_ref,
            new_ref,
        ),
{
    reveal_with_fuel(vault::steps_made, 2);
}

/// What taking a change back does to a credential store.
proof fn lemma_rollback_effect(
    vault: Map<Seq<char>, Seq<char>>,
    new_ref: Option<Seq<char>>,
    old_ref: Option<Seq<char>>,
    old_secret: Option<Seq<char>>,
)
    ensures
        vault::all_changed(vault, rollback(new_ref, old_ref, old_secret)) == rolled_back(
            vault,
            new_ref,
            old_ref,
            old_secret,
        ),
{
    reveal_with_fuel(vault::all_changed, 3);
    let first: Seq<VaultChangeView> = match new_ref {
        Some(reference) => seq![delete(reference)],
        None => Seq::empty(),
    };
    let second: Seq<VaultChangeView> = match (old_ref, old_secret) {
        (Some(reference), Some(secret)) => seq![store(reference, secret)],
        _ => Seq::empty(),
    };
    lemma_all_changed(vault, first, second);
}

/// What a credential store holds once the steps that save a connection are made.
proof fn lemma_save_made(
    request: SaveConnectionRequestView,
    reads: CredentialReadsView,
    secret: Option<Seq<char>>,
    proxy_secret: Option<Seq<char>>,
    vault: Map<Seq<char>, Seq<char>>,
)
    ensures
        save_plan(request, reads, secret, proxy_secret) matches Ok(plan) ==> {
            let new_ref = new_reference(request, reads.id);
            let new_proxy_ref = new_proxy_reference(request, reads.id);
            let first = stored_in(vault, new_ref, nonempty(request.secret));
            vault::steps_made(plan.steps, vault) == (match plan.ending {
                VaultEndingView::Refuse { .. } => first,
                VaultEndingView::Write { .. } => dropped_in(
                    dropped_in(
                        stored_in(first, new_proxy_ref, entered_proxy_password(request)),
                        reads.reference,
                        new_ref,
                    ),
                    reads.proxy_reference,
                    new_proxy_ref,
                ),
            })
        },
{
    if let Ok(plan) = save_plan(request, reads, secret, proxy_secret) {
        let new_ref = new_reference(request, reads.id);
        let new_proxy_ref = new_proxy_reference(request, reads.id);
        let entered = nonempty(request.secret);
        let entered_proxy = entered_proxy_password(request);
        let undo = rollback(new_ref, reads.reference, secret);
        let undo_proxy = rollback(new_proxy_ref, reads.proxy_reference, proxy_secret);
        let one = store_step(new_ref, entered);
        let two = store_step(new_proxy_ref, entered_proxy);
        let three = drop_step(reads.reference, new_ref, rollback(new_ref, None, None));
        let four = drop_step(reads.proxy_reference, new_proxy_ref, undo + undo_proxy);
        let first = stored_in(vault, new_ref, entered);
        let second = stored_in(first, new_proxy_ref, entered_proxy);
        let third = dropped_in(second, reads.reference, new_ref);
        lemma_step_effects(vault, None, new_ref, entered, Seq::empty());
        if plan.ending is Write {
            lemma_step_effects(first, None, new_proxy_ref, entered_proxy, Seq::empty());
            lemma_step_effects(
                second,
                reads.reference,
                new_ref,
                None,
                rollback(new_ref, None, None),
            );
            lemma_step_effects(
                third,
                reads.proxy_reference,
                new_proxy_ref,
                None,
                undo + undo_proxy,
            );
            vault::lemma_steps_joined(one, two, vault);
            vault::lemma_steps_joined(one + two, three, vault);
            vault::lemma_steps_joined(one + two + three, four, vault);
        }
    }
}

/// The two references of a connection, the new one and the one that it had, are
/// apart from those of its proxy.
proof fn lemma_references_apart(
    request: SaveConnectionRequestView,
    reads: CredentialReadsView,
    vault: Map<Seq<char>, Seq<char>>,
)
    requires
        references_fit(request, reads, vault),
    ensures
        ({
            let new_ref = new_reference(request, reads.id);
            let new_proxy_ref = new_proxy_reference(request, reads.id);
            &&& new_ref is Some ==> new_ref != new_proxy_ref && new_ref != reads.proxy_reference
            &&& reads.reference is Some ==> reads.reference != new_proxy_ref && reads.reference
                != reads.proxy_reference
        }),
{
    if let Some(reference) = reads.reference {
        let auth_type = choose|auth_type: AuthType|
            reference == #[trigger] credential_name(reads.id, auth_type);
        credential_names_differ(reads.id, auth_type);
    }
    credential_names_differ(reads.id, request.auth_type);
}

/// Where the saved data cannot be written, saving a connection leaves the
/// credential store as it was.
pub proof fn failed_save_restores_vault(
    request: SaveConnectionRequestView,
    reads: CredentialReadsView,
    vault: Map<Seq<char>, Seq<char>>,
    error: ErrorView,
)
    requires
        references_fit(request, reads, vault),
    ensures
        save_plan(
            request,
            reads,
            looked_up(vault, reads.reference),
            looked_up(vault, reads.proxy_reference),
        ) matches Ok(plan) ==> {
            let end = vault::played(plan, vault::doing(plan, 0), vault, plan.steps.len() as int, error);
            end.0 == vault && !end.1 && end.2 is Some
        },
{
    let secret = looked_up(vault, reads.reference);
    let proxy_secret = looked_up(vault, reads.proxy_reference);
    if let Ok(plan) = save_plan(request, reads, secret, proxy_secret) {
        let new_ref = new_reference(request, reads.id);
        let new_proxy_ref = new_proxy_reference(request, reads.id);
        let end = plan.steps.len() as int;
        lemma_references_apart(request, reads, vault);
        vault::lemma_steps(plan, 0, vault, end, error);
        assert(plan.steps.skip(0) =~= plan.steps);
        lemma_save_made(request, reads, secret, proxy_secret, vault);
        let made = vault::steps_made(plan.steps, vault);
        let undo = rollback(new_ref, reads.reference, secret);
        let undo_proxy = rollback(new_proxy_ref, reads.proxy_reference, proxy_secret);
        lemma_rollback_effect(made, new_ref, reads.reference, secret);
        let back = rolled_back(made, new_ref, reads.reference, secret);
        match plan.ending {
            VaultEndingView::Write { .. } => {
                vault::lemma_undoing(plan, undo + undo_proxy, error, made, end, error);
                lemma_all_changed(made, undo, undo_proxy);
                lemma_rollback_effect(back, new_proxy_ref, reads.proxy_reference, proxy_secret);
                assert(rolled_back(back, new_proxy_ref, reads.proxy_reference, proxy_secret)
                    =~= vault);
            },
            VaultEndingView::Refuse { error: refusal, .. } => {
                vault::lemma_undoing(plan, undo, refusal, made, end, error);
                assert(back =~= vault);
            },
        }
    }
}

/// Changes made one list after the other.
proof fn lemma_all_changed(
    vault: Map<Seq<char>, Seq<char>>,
    a: Seq<VaultChangeView>,
    b: Seq<VaultChangeView>,
)
    ensures
        vault::all_changed(vault, a + b) == vault::all_changed(vault::all_changed(vault, a), b),
    decreases a.len(),
{
    if a.len() == 0 {
        assert(a + b =~= b);
    } else {
        assert((a + b).drop_first() =~= a.drop_first() + b);
        lemma_all_changed(vault::changed(vault, a[0]), a.drop_first(), b);
    }
}

/// Where the saved data cannot be written, deleting a connection leaves the
/// credential store as it was.
pub proof fn failed_delete_restores_vault(
    reads: CredentialReadsView,
    vault: Map<Seq<char>, Seq<char>>,
    error: ErrorView,
)
    requires
        reads.reference is Some ==> reads.reference != reads.proxy_reference,
    ensures
        ({
            let plan = delete_plan(
                reads,
                looked_up(vault, reads.reference),
                looked_up(vault, reads.proxy_reference),
            );
            vault::played(plan, vault::doing(plan, 0), vault, plan.steps.len() as int, error) == (
                vault,
                false,
                Some(error),
            )
        }),
{
    let secret = looked_up(vault, reads.reference);
    let proxy_secret = looked_up(vault, reads.proxy_reference);
    let plan = delete_plan(reads, secret, proxy_secret);
    let end = plan.steps.len() as int;
    vault::lemma_steps(plan, 0, vault, end, error);
    assert(plan.steps.skip(0) =~= plan.steps);
    let undo = rollback(None, reads.reference, secret);
    let undo_proxy = rollback(None, reads.proxy_reference, proxy_secret);
    let first = dropped_in(vault, reads.reference, None);
    let made = dropped_in(first, reads.proxy_reference, None);
    lemma_step_effects(vault, reads.reference, None, None, Seq::empty());
    lemma_step_effects(first, reads.proxy_reference, None, None, undo);
    vault::lemma_steps_joined(
        drop_step(reads.reference, None, Seq::empty()),
        drop_step(reads.proxy_reference, None, undo),
        vault,
    );
    vault::lemma_undoing(plan, undo + undo_proxy, error, made, end, error);
    lemma_all_changed(made, undo, undo_proxy);
    lemma_rollback_effect(made, None, reads.reference, secret);
    let back = rolled_back(made, None, reads.reference, secret);
    lemma_rollback_effect(back, None, reads.proxy_reference, proxy_secret);
    assert(rolled_back(back, None, reads.proxy_reference, proxy_secret) =~= vault);
}

/// Where the new secret cannot be stored, the credential store and the saved data
/// stay as they were.
pub proof fn failed_store_changes_nothing(
    request: SaveConnectionRequestView,
    reads: CredentialReadsView,
    vault: Map<Seq<char>, Seq<char>>,
    error: ErrorView,
)
    requires
        new_reference(request, reads.id) is Some,
        nonempty(request.secret) is Some,
    ensures
        save_plan(
            request,
            reads,
            looked_up(vault, reads.reference),
            looked_up(vault, reads.proxy_reference),
        ) matches Ok(plan) ==> vault::played(plan, vault::doing(plan, 0), vault, 0, error) == (
            vault,
            false,
            Some(error),
        ),
{
    let secret = looked_up(vault, reads.reference);
    let proxy_secret = looked_up(vault, reads.proxy_reference);
    if let Ok(plan) = save_plan(request, reads, secret, proxy_secret) {
        assert(plan.steps[0].undo =~= Seq::empty());
        vault::lemma_undoing(plan, Seq::empty(), error, vault, 0, error);
    }
}

/// Once a connection is saved, the credential store holds the secret that was
/// entered under the reference that the connection has, and nothing under a
/// reference that it gave up.
pub proof fn saved_secret_is_found(
    request: SaveConnectionRequestView,
    reads: CredentialReadsView,
    vault: Map<Seq<char>, Seq<char>>,
    error: ErrorView,
)
    requires
        references_fit(request, reads, vault),
    ensures
        match save_plan(
            request,
            reads,
            looked_up(vault, reads.reference),
            looked_up(vault, reads.proxy_reference),
        ) {
            Ok(plan) => plan.ending is Write ==> {
            let end = vault::played(plan, vault::doing(plan, 0), vault, -1, error);
            let new_ref = new_reference(request, reads.id);
            let new_proxy_ref = new_proxy_reference(request, reads.id);
            &&& end.1
            &&& end.2 is None
            &&& new_ref is Some && nonempty(request.secret) is Some ==> looked_up(end.0, new_ref)
                == nonempty(request.secret)
            &&& new_proxy_ref is Some && entered_proxy_password(request) is Some ==> looked_up(
                end.0,
                new_proxy_ref,
            ) == entered_proxy_password(request)
            &&& reads.reference != new_ref ==> looked_up(end.0, reads.reference) is None
            &&& reads.proxy_reference != new_proxy_ref ==> looked_up(end.0, reads.proxy_reference)
                is None
            },
            Err(_) => true,
        },
{
    let secret = looked_up(vault, reads.reference);
    let proxy_secret = looked_up(vault, reads.proxy_reference);
    if let Ok(plan) = save_plan(request, reads, secret, proxy_secret) {
        if plan.ending is Write {
            lemma_references_apart(request, reads, vault);
            vault::lemma_steps(plan, 0, vault, -1, error);
            assert(plan.steps.skip(0) =~= plan.steps);
            lemma_save_made(request, reads, secret, proxy_secret, vault);
        }
    }
}

/// The same request with other secrets.
pub open spec fn with_secrets(
    request: SaveConnectionRequestView,
    secret: Option<Seq<char>>,
    password: Option<Seq<char>>,
) -> SaveConnectionRequestView {
    SaveConnectionRequestView {
        secret,
        proxy: match request.proxy {
            Some(proxy) => Some(SaveProxyRequestView { password, ..proxy }),
            None => None,
        },
        ..request
    }
}

/// What is written for a connection says nothing of its secrets: it is the same
/// whatever they are.
pub proof fn saved_data_hide_secrets(
    document: AssetDocumentView,
    request: SaveConnectionRequestView,
    secret: Option<Seq<char>>,
    password: Option<Seq<char>>,
    id: Seq<char>,
    now: Seq<char>,
)
    ensures
        with_connection(document, saved_profile(request, existing(document, id), id, now))
            == with_connection(
            document,
            saved_profile(
                with_secrets(request, secret, password),
                existing(document, id),
                id,
                now,
            ),
        ),
{
}

/// Taking a connection out and adding one at the end leaves the jumps of the
/// others as they were.
proof fn lemma_jumps_kept(
    connections: Seq<ConnectionProfileView>,
    profile: ConnectionProfileView,
    a: Seq<char>,
)
    ensures
        ({
            let after = lists::others::<ConnectionProfile>(connections, profile.id).push(profile);
            &&& a != profile.id ==> jump::jumps_of(after, a) == jump::jumps_of(connections, a)
                && jump::has_connection(after, a) == jump::has_connection(connections, a)
            &&& jump::jumps_of(after, profile.id) == profile.jump_host_ids
            &&& jump::has_connection(after, profile.id)
        }),
{
    let kept = lists::others::<ConnectionProfile>(connections, profile.id);
    let after = kept.push(profile);
    lists::lemma_others::<ConnectionProfile>(connections, profile.id);
    lemma_first_kept(connections, profile.id, a);
    jump::lemma_find(after, a);
    jump::lemma_find(kept, a);
    jump::lemma_find(connections, a);
    jump::lemma_find(after, profile.id);
    let last = kept.len() as int;
    assert(after[last] == profile);
    if a != profile.id {
        match jump::find_connection(kept, a) {
            Some(i) => {
                assert forall|j: int| 0 <= j < i implies (#[trigger] after[j]).id != a by {
                    assert(after[j] == kept[j]);
                }
                assert(after[i] == kept[i]);
                assert(jump::first_at(after, a, i));
            },
            None => {
                if jump::has_connection(after, a) {
                    let k = choose|k: int| 0 <= k < after.len() && (#[trigger] after[k]).id == a;
                    assert(k != last);
                    assert(kept[k].id == a);
                }
            },
        }
    }
    assert forall|j: int| 0 <= j < last implies (#[trigger] after[j]).id != profile.id by {
        assert(after[j] == kept[j]);
        if kept[j].id == profile.id {
            assert(lists::has_id::<ConnectionProfile>(kept, profile.id));
        }
    }
    assert(jump::first_at(after, profile.id, last));
    assert(jump::has_connection(after, profile.id));
}

/// Taking a connection out leaves the first with another id.
proof fn lemma_first_kept(
    connections: Seq<ConnectionProfileView>,
    id: Seq<char>,
    a: Seq<char>,
)
    ensures
        a != id ==> jump::jumps_of(lists::others::<ConnectionProfile>(connections, id), a) == jump::jumps_of(
            connections,
            a,
        ) && jump::has_connection(lists::others::<ConnectionProfile>(connections, id), a) == jump::has_connection(
            connections,
            a,
        ),
    decreases connections.len(),
{
    if a != id && connections.len() > 0 {
        let rest = connections.drop_last();
        let last = connections.last();
        lemma_first_kept(rest, id, a);
        let kept = lists::others::<ConnectionProfile>(rest, id);
        assert(connections =~= rest.push(last));
        lemma_find_push(rest, last, a);
        lemma_find_push(kept, last, a);
    }
}

/// What adding a connection at the end changes for an id.
proof fn lemma_find_push(
    connections: Seq<ConnectionProfileView>,
    last: ConnectionProfileView,
    a: Seq<char>,
)
    ensures
        jump::jumps_of(connections.push(last), a) == (if jump::has_connection(connections, a) {
            jump::jumps_of(connections, a)
        } else if last.id == a {
            last.jump_host_ids
        } else {
            Seq::empty()
        }),
        jump::has_connection(connections.push(last), a) == (jump::has_connection(connections, a) || last.id
            == a),
{
    let longer = connections.push(last);
    jump::lemma_find(connections, a);
    jump::lemma_find(longer, a);
    assert(longer[connections.len() as int] == last);
    match jump::find_connection(connections, a) {
        Some(i) => {
            assert forall|j: int| 0 <= j < i implies (#[trigger] longer[j]).id != a by {
                assert(longer[j] == connections[j]);
            }
            assert(longer[i] == connections[i]);
            assert(jump::first_at(longer, a, i));
        },
        None => {
            assert forall|j: int| 0 <= j < connections.len() implies (#[trigger] longer[j]).id
                != a by {
                assert(longer[j] == connections[j]);
            }
            if last.id == a {
                assert(jump::first_at(longer, a, connections.len() as int));
            } else if jump::has_connection(longer, a) {
                let k = choose|k: int| 0 <= k < longer.len() && (#[trigger] longer[k]).id == a;
                assert(connections[k].id == a);
            }
        },
    }
}

/// A connection that passes the check of its jump hosts makes no cycle: where no
/// saved connection came back to itself before, none does after it is saved.
pub proof fn saving_keeps_acyclic(
    connections: Seq<ConnectionProfileView>,
    profile: ConnectionProfileView,
)
    requires
        jump::acyclic(connections),
        jump::jump_fault(connections, profile.id, profile.jump_host_ids) is None,
    ensures
        jump::acyclic(lists::others::<ConnectionProfile>(connections, profile.id).push(profile)),
{
    let id = profile.id;
    let after = lists::others::<ConnectionProfile>(connections, id).push(profile);
    assert forall|path: Seq<Seq<char>>| #[trigger]
        jump::is_path(after, path) && path.len() > 1 implies path.first() != path.last() by {
        if path.first() == path.last() {
            if path.contains(id) {
                let k = choose|k: int| 0 <= k < path.len() && path[k] == id;
                let turned = if k == path.len() - 1 {
                    path
                } else {
                    path.skip(k) + path.subrange(1, k + 1)
                };
                lemma_turned(after, path, k);
                lemma_cycle_avoids(connections, profile, turned);
            } else {
                assert(jump::is_path(connections, path)) by {
                    assert forall|k: int| 0 <= k < path.len() - 1 implies #[trigger] jump::hop(
                        connections,
                        path,
                        k,
                    ) by {
                        assert(jump::hop(after, path, k));
                        assert(path.contains(path[k]));
                        lemma_jumps_kept(connections, profile, path[k]);
                    }
                }
            }
        }
    }
}

/// A cycle can be read from any of its places.
proof fn lemma_turned(connections: Seq<ConnectionProfileView>, path: Seq<Seq<char>>, k: int)
    requires
        jump::is_path(connections, path),
        path.len() > 1,
        path.first() == path.last(),
        0 <= k < path.len(),
    ensures
        ({
            let turned = if k == path.len() - 1 {
                path
            } else {
                path.skip(k) + path.subrange(1, k + 1)
            };
            &&& jump::is_path(connections, turned)
            &&& turned.len() > 1
            &&& turned.first() == path[k]
            &&& turned.last() == path[k]
        }),
{
    if k < path.len() - 1 {
        let head = path.skip(k);
        let turned = head + path.subrange(1, k + 1);
        assert forall|j: int| 0 <= j < turned.len() - 1 implies #[trigger] jump::hop(
            connections,
            turned,
            j,
        ) by {
            if j < head.len() - 1 {
                assert(jump::hop(connections, path, k + j));
                assert(turned[j] == path[k + j] && turned[j + 1] == path[k + j + 1]);
            } else if j == head.len() - 1 {
                assert(jump::hop(connections, path, 0));
                assert(turned[j] == path.last());
                assert(turned[j + 1] == path[1]);
            } else {
                let m = j - head.len() + 1;
                assert(jump::hop(connections, path, m as int));
                assert(turned[j] == path[m as int]);
                assert(turned[j + 1] == path[m + 1]);
            }
        }
        if k == 0 {
            assert(turned =~= path);
        } else {
            assert(turned.last() == path[k]);
        }
    }
}

/// A cycle through a connection that passed the check would have been found.
proof fn lemma_cycle_avoids(
    connections: Seq<ConnectionProfileView>,
    profile: ConnectionProfileView,
    path: Seq<Seq<char>>,
)
    requires
        jump::jump_fault(connections, profile.id, profile.jump_host_ids) is None,
        jump::is_path(lists::others::<ConnectionProfile>(connections, profile.id).push(profile), path),
        path.len() > 1,
        path.first() == profile.id,
    ensures
        path.last() != profile.id,
{
    let id = profile.id;
    if path.last() == id {
        let after = lists::others::<ConnectionProfile>(connections, id).push(profile);
        lemma_jumps_kept(connections, profile, id);
        assert(jump::hop(after, path, 0));
        let jump = path[1];
        assert(profile.jump_host_ids.contains(jump));
        let at = choose|at: int|
            0 <= at < profile.jump_host_ids.len() && profile.jump_host_ids[at] == jump;
        lemma_no_fault(connections, id, profile.jump_host_ids, 0, at);
        let end = lemma_first_return(path, id, path.len() - 1);
        let back = path.subrange(1, end + 1);
        assert(jump::is_path(connections, back)) by {
            assert forall|k: int| 0 <= k < back.len() - 1 implies #[trigger] jump::hop(
                connections,
                back,
                k,
            ) by {
                assert(jump::hop(after, path, k + 1));
                assert(back[k] == path[k + 1] && back[k + 1] == path[k + 2]);
                assert(path[k + 1] != id);
                lemma_jumps_kept(connections, profile, path[k + 1]);
            }
        }
        assert(back.first() == jump && back.last() == id);
        assert(jump::reaches(connections, jump, id));
    }
}

/// The first place behind the start at which a path comes to an id.
proof fn lemma_first_return(path: Seq<Seq<char>>, id: Seq<char>, at: int) -> (r: int)
    requires
        1 <= at < path.len(),
        path[at] == id,
    ensures
        1 <= r <= at,
        path[r] == id,
        forall|j: int| 1 <= j < r ==> #[trigger] path[j] != id,
    decreases at,
{
    if exists|j: int| 1 <= j < at && #[trigger] path[j] == id {
        let j = choose|j: int| 1 <= j < at && #[trigger] path[j] == id;
        lemma_first_return(path, id, j)
    } else {
        at
    }
}

/// Where no jump host has a fault, none is the connection itself or leads back to
/// it.
proof fn lemma_no_fault(
    connections: Seq<ConnectionProfileView>,
    id: Seq<char>,
    jumps: Seq<Seq<char>>,
    from: int,
    at: int,
)
    requires
        jump::jump_fault_from(connections, id, jumps, from) is None,
        0 <= from <= at < jumps.len(),
    ensures
        jumps[at] != id,
        jump::has_connection(connections, jumps[at]),
        !jump::reaches(connections, jumps[at], id),
    decreases at - from,
{
    if from < at {
        lemma_no_fault(connections, id, jumps, from + 1, at);
    }
}

/// Where every jump host existed before a connection is saved, every one exists
/// after.
pub proof fn saving_keeps_jumps(
    connections: Seq<ConnectionProfileView>,
    profile: ConnectionProfileView,
)
    requires
        jump::all_jumps_exist(connections),
        jump::jump_fault(connections, profile.id, profile.jump_host_ids) is None,
    ensures
        jump::all_jumps_exist(lists::others::<ConnectionProfile>(connections, profile.id).push(profile)),
{
    let after = lists::others::<ConnectionProfile>(connections, profile.id).push(profile);
    assert forall|a: Seq<char>, b: Seq<char>| #[trigger]
        jump::jumps_through(after, a, b) implies jump::has_connection(after, b) by {
        lemma_jumps_kept(connections, profile, a);
        lemma_jumps_kept(connections, profile, b);
        if a == profile.id {
            let at = choose|at: int|
                0 <= at < profile.jump_host_ids.len() && profile.jump_host_ids[at] == b;
            lemma_no_fault(connections, profile.id, profile.jump_host_ids, 0, at);
        } else {
            assert(jump::jumps_through(connections, a, b));
        }
    }
}

/// A connection that can be deleted is on no other connection's way: once it is
/// gone, every jump host still exists and nothing comes back to itself.
pub proof fn deleting_keeps_jumps(document: AssetDocumentView, id: Seq<char>)
    requires
        jump::all_jumps_exist(document.connections),
        jump::acyclic(document.connections),
        delete_begins(document, id) is Ok,
    ensures
        jump::all_jumps_exist(without_connection(document, id).connections),
        jump::acyclic(without_connection(document, id).connections),
{
    let connections = document.connections;
    let after = lists::others::<ConnectionProfile>(connections, id);
    lists::lemma_others::<ConnectionProfile>(connections, id);
    assert forall|a: Seq<char>, b: Seq<char>| #[trigger]
        jump::jumps_through(after, a, b) implies jump::has_connection(after, b) && jump::jumps_through(
        connections,
        a,
        b,
    ) by {
        jump::lemma_find(after, a);
        assert(a != id) by {
            if a == id {
                assert(jump::has_connection(after, id));
                let k = choose|k: int| 0 <= k < after.len() && (#[trigger] after[k]).id == id;
                assert(lists::has_id::<ConnectionProfile>(after, id));
            }
        }
        lemma_first_kept(connections, id, a);
        jump::lemma_find(connections, a);
        assert(jump::jumps_through(connections, a, b));
        let i = jump::find_connection(connections, a)->0;
        assert(connections[i].id != id && connections[i].jump_host_ids.contains(b));
        assert(b != id);
        lemma_first_kept(connections, id, b);
    }
    assert forall|path: Seq<Seq<char>>| #[trigger]
        jump::is_path(after, path) && path.len() > 1 implies path.first() != path.last() by {
        assert(jump::is_path(connections, path)) by {
            assert forall|k: int| 0 <= k < path.len() - 1 implies #[trigger] jump::hop(
                connections,
                path,
                k,
            ) by {
                assert(jump::hop(after, path, k));
                assert(jump::jumps_through(after, path[k], path[k + 1]));
            }
        }
    }
}

/// A secret that is remembered and was not entered anew stays what it was, and so does
/// every secret that is not of the connection.
pub proof fn kept_secrets_stay(
    request: SaveConnectionRequestView,
    reads: CredentialReadsView,
    vault: Map<Seq<char>, Seq<char>>,
    error: ErrorView,
    other: Seq<char>,
)
    requires
        references_fit(request, reads, vault),
        Some(other) != new_reference(request, reads.id),
        Some(other) != new_proxy_reference(request, reads.id),
        Some(other) != reads.reference,
        Some(other) != reads.proxy_reference,
    ensures
        match save_plan(
            request,
            reads,
            looked_up(vault, reads.reference),
            looked_up(vault, reads.proxy_reference),
        ) {
            Ok(plan) => plan.ending is Write ==> {
                let end = vault::played(plan, vault::doing(plan, 0), vault, -1, error).0;
                let new_ref = new_reference(request, reads.id);
                let new_proxy_ref = new_proxy_reference(request, reads.id);
                &&& new_ref is Some && nonempty(request.secret) is None ==> looked_up(end, new_ref)
                    == looked_up(vault, new_ref) && reads.reference == new_ref
                &&& new_proxy_ref is Some && entered_proxy_password(request) is None ==> looked_up(
                    end,
                    new_proxy_ref,
                ) == looked_up(vault, new_proxy_ref) && reads.proxy_reference == new_proxy_ref
                &&& looked_up(end, Some(other)) == looked_up(vault, Some(other))
            },
            Err(_) => true,
        },
{
    let secret = looked_up(vault, reads.reference);
    let proxy_secret = looked_up(vault, reads.proxy_reference);
    if let Ok(plan) = save_plan(request, reads, secret, proxy_secret) {
        if plan.ending is Write {
            lemma_references_apart(request, reads, vault);
            vault::lemma_steps(plan, 0, vault, -1, error);
            assert(plan.steps.skip(0) =~= plan.steps);
            lemma_save_made(request, reads, secret, proxy_secret, vault);
        }
    }
}

/// Where saving is refused for want of a proxy password, the credential store is left as it
/// was and nothing is written.
pub proof fn refused_saves_change_nothing(
    request: SaveConnectionRequestView,
    reads: CredentialReadsView,
    vault: Map<Seq<char>, Seq<char>>,
    error: ErrorView,
)
    requires
        references_fit(request, reads, vault),
    ensures
        match save_plan(
            request,
            reads,
            looked_up(vault, reads.reference),
            looked_up(vault, reads.proxy_reference),
        ) {
            Ok(plan) => plan.ending is Refuse ==> {
                let end = vault::played(plan, vault::doing(plan, 0), vault, -1, error);
                end.0 == vault && !end.1 && (end.2 matches Some(told) && told.code
                    == "PROXY-CREDENTIAL-REQUIRED"@)
            },
            Err(_) => true,
        },
{
    let secret = looked_up(vault, reads.reference);
    let proxy_secret = looked_up(vault, reads.proxy_reference);
    if let Ok(plan) = save_plan(request, reads, secret, proxy_secret) {
        if let VaultEndingView::Refuse { error: refusal, .. } = plan.ending {
            let new_ref = new_reference(request, reads.id);
            lemma_references_apart(request, reads, vault);
            vault::lemma_steps(plan, 0, vault, -1, error);
            assert(plan.steps.skip(0) =~= plan.steps);
            lemma_save_made(request, reads, secret, proxy_secret, vault);
            let made = vault::steps_made(plan.steps, vault);
            let undo = rollback(new_ref, reads.reference, secret);
            lemma_rollback_effect(made, new_ref, reads.reference, secret);
            vault::lemma_undoing(plan, undo, refusal, made, -1, error);
            assert(rolled_back(made, new_ref, reads.reference, secret) =~= vault);
        }
    }
}

/// Once a connection is deleted the credential store holds neither of its secrets, and all
/// others as they were.
pub proof fn deleted_secrets_are_gone(
    reads: CredentialReadsView,
    vault: Map<Seq<char>, Seq<char>>,
    error: ErrorView,
    other: Seq<char>,
)
    requires
        Some(other) != reads.reference,
        Some(other) != reads.proxy_reference,
    ensures
        ({
            let plan = delete_plan(
                reads,
                looked_up(vault, reads.reference),
                looked_up(vault, reads.proxy_reference),
            );
            let end = vault::played(plan, vault::doing(plan, 0), vault, -1, error);
            &&& end.1
            &&& end.2 is None
            &&& looked_up(end.0, reads.reference) is None
            &&& looked_up(end.0, reads.proxy_reference) is None
            &&& looked_up(end.0, Some(other)) == looked_up(vault, Some(other))
        }),
{
    let secret = looked_up(vault, reads.reference);
    let proxy_secret = looked_up(vault, reads.proxy_reference);
    let plan = delete_plan(reads, secret, proxy_secret);
    vault::lemma_steps(plan, 0, vault, -1, error);
    assert(plan.steps.skip(0) =~= plan.steps);
    let undo = rollback(None, reads.reference, secret);
    let first = dropped_in(vault, reads.reference, None);
    lemma_step_effects(vault, reads.reference, None, None, Seq::empty());
    lemma_step_effects(first, reads.proxy_reference, None, None, undo);
    vault::lemma_steps_joined(
        drop_step(reads.reference, None, Seq::empty()),
        drop_step(reads.proxy_reference, None, undo),
        vault,
    );
}

} // verus!
