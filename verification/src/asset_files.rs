//! Loading the saved data from their file, and taking in the data of another
//! file.

#![verifier::loop_isolation(false)]

use crate::assets::{
    self, AssetStore, DEFAULT_GROUP_ID, SCHEMA_VERSION, consent_required, is_loopback_host,
    strip_references,
};
use crate::error::{self, AppError, ErrorView};
use crate::jump::{self, validate_jump_hosts};
use crate::keyed::KeyedList;
use crate::lists::{self, index_of};
use crate::models::{
    AssetDocument, AssetDocumentView, AssetTransferSummary, AssetTransferSummaryView,
    ConnectionGroup, ConnectionGroupView, ConnectionProfile, ConnectionProfileView, Duplicate,
    TunnelKind, TunnelProfile, TunnelProfileView, duplicate_list,
};
use crate::outside::{self, json_number, new_id, now};
use crate::text::{self, cat2, cat3, char_len, decimal_text, same, same_ignoring_case, trimmed};
use vstd::prelude::*;

verus! {

/// The group that always exists, as it is created.
pub open spec fn default_group(now: Seq<char>) -> ConnectionGroupView {
    ConnectionGroupView {
        id: DEFAULT_GROUP_ID@,
        name: "默认分组"@,
        created_at: now,
        updated_at: now,
    }
}

/// The saved data before anything is saved.
pub open spec fn empty_document(now: Seq<char>) -> AssetDocumentView {
    AssetDocumentView {
        schema_version: SCHEMA_VERSION,
        groups: seq![default_group(now)],
        connections: Seq::empty(),
        recent_targets: Seq::empty(),
        tunnels: Seq::empty(),
    }
}

/// The groups, with the default group in front where it is missing.
pub open spec fn with_default_group(groups: Seq<ConnectionGroupView>, now: Seq<char>) -> Seq<
    ConnectionGroupView,
> {
    if lists::has_id::<ConnectionGroup>(groups, DEFAULT_GROUP_ID@) {
        groups
    } else {
        seq![default_group(now)] + groups
    }
}

/// A connection in a group that exists: its own, or the default group.
pub open spec fn in_known_group(
    connection: ConnectionProfileView,
    groups: Seq<ConnectionGroupView>,
) -> ConnectionProfileView {
    if lists::has_id::<ConnectionGroup>(groups, connection.group_id) {
        connection
    } else {
        ConnectionProfileView { group_id: DEFAULT_GROUP_ID@, ..connection }
    }
}

/// The data of a file once they are taken in: of this version, with the default
/// group, and with every connection in a group that exists.
pub open spec fn admitted(document: AssetDocumentView, now: Seq<char>) -> Result<
    AssetDocumentView,
    ErrorView,
> {
    if document.schema_version > SCHEMA_VERSION {
        Err(
            error::asset_storage_error(
                "连接数据版本暂不受支持"@,
                "unsupported schema version "@ + text::decimal(document.schema_version as nat),
            ),
        )
    } else {
        let groups = with_default_group(document.groups, now);
        Ok(
            AssetDocumentView {
                schema_version: SCHEMA_VERSION,
                groups,
                connections: Seq::new(
                    document.connections.len(),
                    |i: int| in_known_group(document.connections[i], groups),
                ),
                ..document
            },
        )
    }
}

/// Whether saved data are as the store keeps them: of this version, with the
/// default group, and with every connection in a group that exists.
pub open spec fn settled(document: AssetDocumentView) -> bool {
    &&& document.schema_version == SCHEMA_VERSION
    &&& lists::has_id::<ConnectionGroup>(document.groups, DEFAULT_GROUP_ID@)
    &&& forall|i: int|
        0 <= i < document.connections.len() ==> lists::has_id::<ConnectionGroup>(
            document.groups,
            (#[trigger] document.connections[i]).group_id,
        )
}

/// Data that are taken in are as the store keeps them.
pub proof fn admitted_is_settled(document: AssetDocumentView, now: Seq<char>)
    ensures
        admitted(document, now) matches Ok(after) ==> settled(after),
        settled(empty_document(now)),
{
    let groups = with_default_group(document.groups, now);
    assert(lists::has_id::<ConnectionGroup>(groups, DEFAULT_GROUP_ID@)) by {
        if !lists::has_id::<ConnectionGroup>(document.groups, DEFAULT_GROUP_ID@) {
            assert(groups[0].id == DEFAULT_GROUP_ID@);
        }
    }
    assert(empty_document(now).groups[0].id == DEFAULT_GROUP_ID@);
}

/// Data that the store keeps are taken in as they are.
pub proof fn settled_is_admitted_unchanged(document: AssetDocumentView, now: Seq<char>)
    requires
        settled(document),
    ensures
        admitted(document, now) == Ok::<AssetDocumentView, ErrorView>(document),
{
    assert(Seq::new(
        document.connections.len(),
        |i: int| in_known_group(document.connections[i], document.groups),
    ) =~= document.connections);
}

/// The group that always exists, as it is created.
fn make_default_group(now: &str) -> (r: ConnectionGroup)
    ensures
        r@ == default_group(now@),
{
    ConnectionGroup {
        id: DEFAULT_GROUP_ID.to_owned(),
        name: "默认分组".to_owned(),
        created_at: now.to_owned(),
        updated_at: now.to_owned(),
    }
}

/// The saved data before anything is saved.
pub fn new_document(now: &str) -> (r: AssetDocument)
    ensures
        r@ == empty_document(now@),
{
    let mut groups: Vec<ConnectionGroup> = Vec::new();
    groups.push(make_default_group(now));
    let r = AssetDocument {
        schema_version: SCHEMA_VERSION,
        groups,
        connections: Vec::new(),
        recent_targets: Vec::new(),
        tunnels: Vec::new(),
    };
    assert(r@.groups =~= empty_document(now@).groups);
    assert(r@.connections =~= Seq::empty());
    assert(r@.recent_targets =~= Seq::empty());
    assert(r@.tunnels =~= Seq::empty());
    r
}

/// Takes in the data of a file.
pub fn admit_document(document: AssetDocument, now: &str) -> (r: Result<AssetDocument, AppError>)
    ensures
        error::ends_as(r, admitted(document@, now@)),
{
    let ghost before = document@;
    let mut document = document;
    if document.schema_version > SCHEMA_VERSION {
        return Err(
            AppError::asset_storage(
                "连接数据版本暂不受支持",
                cat2(
                    "unsupported schema version ",
                    decimal_text(document.schema_version as u64).as_str(),
                ).as_str(),
            ),
        );
    }
    document.schema_version = SCHEMA_VERSION;
    if index_of(&document.groups, DEFAULT_GROUP_ID).is_none() {
        document.groups.insert(0, make_default_group(now));
        assert(document@.groups =~= seq![default_group(now@)] + before.groups);
    }
    let ghost groups = document@.groups;
    let mut i: usize = 0;
    while i < document.connections.len()
        invariant
            i <= document.connections@.len(),
            document.connections@.len() == before.connections.len(),
            document.groups.deep_view() == groups,
            document.schema_version == SCHEMA_VERSION,
            document.recent_targets.deep_view() == before.recent_targets,
            document.tunnels.deep_view() == before.tunnels,
            forall|j: int|
                0 <= j < i ==> (#[trigger] document.connections@[j])@ == in_known_group(
                    before.connections[j],
                    groups,
                ),
            forall|j: int|
                i <= j < document.connections@.len() ==> (#[trigger] document.connections@[j])@
                    == before.connections[j],
        decreases document.connections@.len() - i,
    {
        if index_of(&document.groups, document.connections[i].group_id.as_str()).is_none() {
            let mut connection = document.connections[i].duplicate();
            connection.group_id = DEFAULT_GROUP_ID.to_owned();
            document.connections[i] = connection;
        }
        i = i + 1;
    }
    assert(document@.connections =~= Seq::new(
        before.connections.len(),
        |i: int| in_known_group(before.connections[i], groups),
    ));
    Ok(document)
}

/// The version that the text of a file gives for its data.
pub fn document_schema_version(bytes: &Vec<u8>) -> (r: Option<u64>)
    ensures
        r == outside::json_number_of(bytes@, "schemaVersion"@),
{
    json_number(bytes, "schemaVersion")
}

/// Whether data of this version have to be written again.
pub open spec fn is_outdated(version: Option<u64>) -> bool {
    version matches Some(version) && version < SCHEMA_VERSION
}

/// Whether data of this version have to be written again.
pub fn version_is_outdated(version: Option<u64>) -> (r: bool)
    ensures
        r == is_outdated(version),
{
    match version {
        Some(version) => version < SCHEMA_VERSION as u64,
        None => false,
    }
}

/// What was found at the path of a file.
#[derive(Debug)]
pub enum FoundFile {
    /// Nothing.
    Missing,
    /// Something that could not be read, for this reason.
    Unreadable(String),
    /// A file; `empty` says whether it has no content, `document` holds its data,
    /// or why they could not be read, and `version` the version that its text
    /// gives.
    Content { empty: bool, document: Result<AssetDocument, String>, version: Option<u64> },
}

/// What a [`FoundFile`] says.
#[verifier::ext_equal]
pub enum FoundFileView {
    Missing,
    Unreadable(Seq<char>),
    Content {
        empty: bool,
        document: Result<AssetDocumentView, Seq<char>>,
        version: Option<u64>,
    },
}

impl View for FoundFile {
    type V = FoundFileView;

    open spec fn view(&self) -> FoundFileView {
        match self {
            FoundFile::Missing => FoundFileView::Missing,
            FoundFile::Unreadable(reason) => FoundFileView::Unreadable(reason@),
            FoundFile::Content { empty, document, version } => FoundFileView::Content {
                empty: *empty,
                document: match document {
                    Ok(document) => Ok(document@),
                    Err(reason) => Err(reason@),
                },
                version: *version,
            },
        }
    }
}

/// How far loading has come.
#[verifier::ext_equal]
pub enum LoadStateView {
    /// The file is read.
    Primary,
    /// The file that was to take its place is read. `fault` is what was wrong
    /// with the first, or `None` where it was missing.
    Pending { fault: Option<ErrorView> },
    /// The data are written to the file that is to take the place of the first.
    WritePending { document: AssetDocumentView },
    /// The file takes the place of the first.
    Replace { document: AssetDocumentView },
    /// The data are written to the first file.
    WritePrimary { document: AssetDocumentView },
    /// Loading has ended.
    Loaded { outcome: Result<AssetDocumentView, ErrorView> },
}

/// The data of a file, or why they cannot be taken in.
pub open spec fn taken_in(
    document: Result<AssetDocumentView, Seq<char>>,
    now: Seq<char>,
) -> Result<AssetDocumentView, ErrorView> {
    match document {
        Ok(document) => admitted(document, now),
        Err(reason) => Err(
            error::asset_storage_error("连接数据已损坏，无法安全加载"@, reason),
        ),
    }
}

/// The state once loading has ended with an error.
pub open spec fn load_failed(error: ErrorView) -> LoadStateView {
    LoadStateView::Loaded { outcome: Err(error) }
}

/// The state after the first file was looked at.
pub open spec fn after_primary(found: FoundFileView, now: Seq<char>) -> LoadStateView {
    match found {
        FoundFileView::Missing => LoadStateView::Pending { fault: None },
        FoundFileView::Unreadable(reason) => load_failed(
            error::asset_storage_error("无法读取连接数据"@, reason),
        ),
        FoundFileView::Content { empty, document, version } => if empty {
            LoadStateView::Loaded { outcome: Ok(empty_document(now)) }
        } else {
            match taken_in(document, now) {
                Err(fault) => LoadStateView::Pending { fault: Some(fault) },
                Ok(document) => if is_outdated(version) {
                    LoadStateView::WritePrimary { document }
                } else {
                    LoadStateView::Loaded { outcome: Ok(document) }
                },
            }
        },
    }
}

/// The state after the file that was to take the place of the first was looked
/// at.
pub open spec fn after_pending(
    fault: Option<ErrorView>,
    found: FoundFileView,
    now: Seq<char>,
) -> LoadStateView {
    match found {
        FoundFileView::Missing => match fault {
            None => LoadStateView::Loaded { outcome: Ok(empty_document(now)) },
            Some(fault) => load_failed(fault),
        },
        FoundFileView::Unreadable(reason) => load_failed(
            error::asset_storage_error("无法读取待恢复的连接数据"@, reason),
        ),
        FoundFileView::Content { document, version, .. } => match taken_in(document, now) {
            Err(error) => load_failed(error),
            Ok(document) => if is_outdated(version) {
                LoadStateView::WritePending { document }
            } else {
                LoadStateView::Replace { document }
            },
        },
    }
}

/// The state after a file was written or put in the place of another.
pub open spec fn after_change(state: LoadStateView, failure: Option<ErrorView>) -> LoadStateView {
    match (state, failure) {
        (LoadStateView::WritePending { document }, None) => LoadStateView::Replace { document },
        (LoadStateView::Replace { document }, None) => LoadStateView::Loaded {
            outcome: Ok(document),
        },
        (LoadStateView::WritePrimary { document }, None) => LoadStateView::Loaded {
            outcome: Ok(document),
        },
        (LoadStateView::Loaded { outcome }, _) => state,
        (_, Some(error)) => load_failed(error),
        (_, None) => state,
    }
}

/// How far loading has come.
#[derive(Debug)]
pub enum LoadState {
    Primary,
    Pending { fault: Option<AppError> },
    WritePending { document: AssetDocument },
    Replace { document: AssetDocument },
    WritePrimary { document: AssetDocument },
    Loaded { outcome: Result<AssetDocument, AppError> },
}

impl View for LoadState {
    type V = LoadStateView;

    open spec fn view(&self) -> LoadStateView {
        match self {
            LoadState::Primary => LoadStateView::Primary,
            LoadState::Pending { fault } => LoadStateView::Pending { fault: fault.deep_view() },
            LoadState::WritePending { document } => LoadStateView::WritePending {
                document: document@,
            },
            LoadState::Replace { document } => LoadStateView::Replace { document: document@ },
            LoadState::WritePrimary { document } => LoadStateView::WritePrimary {
                document: document@,
            },
            LoadState::Loaded { outcome } => LoadStateView::Loaded {
                outcome: match outcome {
                    Ok(document) => Ok(document@),
                    Err(error) => Err(error@),
                },
            },
        }
    }
}

/// Takes in the data of a file.
fn take_in(document: Result<AssetDocument, String>, now: &str) -> (r: Result<
    AssetDocument,
    AppError,
>)
    ensures
        error::ends_as(
            r,
            taken_in(
                match document {
                    Ok(document) => Ok(document@),
                    Err(reason) => Err(reason@),
                },
                now@,
            ),
        ),
{
    match document {
        Ok(document) => admit_document(document, now),
        Err(reason) => Err(
            AppError::asset_storage("连接数据已损坏，无法安全加载", reason.as_str()),
        ),
    }
}

impl LoadState {
    /// Goes on after the first file was looked at.
    pub fn primary(found: FoundFile, now: &str) -> (r: Self)
        ensures
            r@ == after_primary(found@, now@),
    {
        match found {
            FoundFile::Missing => LoadState::Pending { fault: None },
            FoundFile::Unreadable(reason) => LoadState::Loaded {
                outcome: Err(AppError::asset_storage("无法读取连接数据", reason.as_str())),
            },
            FoundFile::Content { empty, document, version } => if empty {
                LoadState::Loaded { outcome: Ok(new_document(now)) }
            } else {
                match take_in(document, now) {
                    Err(fault) => LoadState::Pending { fault: Some(fault) },
                    Ok(document) => if version_is_outdated(version) {
                        LoadState::WritePrimary { document }
                    } else {
                        LoadState::Loaded { outcome: Ok(document) }
                    },
                }
            },
        }
    }

    /// Goes on after the file that was to take the place of the first was looked
    /// at.
    pub fn pending(fault: Option<AppError>, found: FoundFile, now: &str) -> (r: Self)
        ensures
            r@ == after_pending(fault.deep_view(), found@, now@),
    {
        match found {
            FoundFile::Missing => match fault {
                None => LoadState::Loaded { outcome: Ok(new_document(now)) },
                Some(fault) => LoadState::Loaded { outcome: Err(fault) },
            },
            FoundFile::Unreadable(reason) => LoadState::Loaded {
                outcome: Err(
                    AppError::asset_storage("无法读取待恢复的连接数据", reason.as_str()),
                ),
            },
            FoundFile::Content { document, version, .. } => match take_in(document, now) {
                Err(error) => LoadState::Loaded { outcome: Err(error) },
                Ok(document) => if version_is_outdated(version) {
                    LoadState::WritePending { document }
                } else {
                    LoadState::Replace { document }
                },
            },
        }
    }

    /// Goes on after a file was written or put in the place of another.
    pub fn changed(self, outcome: Result<(), AppError>) -> (r: Self)
        ensures
            r@ == after_change(self@, error::error_of(outcome)),
    {
        match self {
            LoadState::Loaded { outcome } => LoadState::Loaded { outcome },
            state => match outcome {
                Err(error) => LoadState::Loaded { outcome: Err(error) },
                Ok(()) => match state {
                    LoadState::WritePending { document } => LoadState::Replace { document },
                    LoadState::Replace { document } => LoadState::Loaded { outcome: Ok(document) },
                    LoadState::WritePrimary { document } => LoadState::Loaded {
                        outcome: Ok(document),
                    },
                    state => state,
                },
            },
        }
    }
}

/// A damaged file is no loss where the file that was to take its place can be
/// read: its data are loaded once it is put in place.
pub proof fn pending_file_recovers(
    damaged: FoundFileView,
    document: AssetDocumentView,
    version: Option<u64>,
    now: Seq<char>,
)
    requires
        damaged matches FoundFileView::Content { empty, document, .. } && !empty && document is Err,
        admitted(document, now) is Ok,
        !is_outdated(version),
    ensures
        ({
            let first = after_primary(damaged, now);
            &&& first is Pending
            &&& after_change(
                after_pending(
                    first->fault,
                    FoundFileView::Content { empty: false, document: Ok(document), version },
                    now,
                ),
                None,
            ) == (LoadStateView::Loaded { outcome: admitted(document, now) })
        }),
{
}

/// What is wrong with a connection of another file.
pub open spec fn import_fault(connection: ConnectionProfileView) -> Option<ErrorView> {
    if text::trim(connection.name).len() == 0 || connection.name.len() > 64 || text::trim(
        connection.host,
    ).len() == 0 || text::trim(connection.username).len() == 0 || connection.username.len() > 128 || !(5
        <= connection.timeout_seconds <= 60) {
        Some(error::validation_error("导入连接“"@ + connection.name + "”的字段无效"@))
    } else {
        None
    }
}

/// Checks a connection of another file.
pub fn validate_imported_connection(connection: &ConnectionProfile) -> (r: Result<(), AppError>)
    ensures
        error::error_of(r) == import_fault(connection@),
{
    if char_len(trimmed(connection.name.as_str()).as_str()) == 0 || char_len(
        connection.name.as_str(),
    ) > 64 || char_len(trimmed(connection.host.as_str()).as_str()) == 0 || char_len(
        trimmed(connection.username.as_str()).as_str(),
    ) == 0 || char_len(connection.username.as_str()) > 128 || connection.timeout_seconds < 5
        || connection.timeout_seconds > 60 {
        return Err(
            AppError::validation(
                cat3("导入连接“", connection.name.as_str(), "”的字段无效").as_str(),
            ),
        );
    }
    Ok(())
}

/// What is wrong with the first faulty connection from place `i` on.
pub open spec fn imports_fault(connections: Seq<ConnectionProfileView>, i: int) -> Option<ErrorView>
    decreases connections.len() - i,
{
    if i < 0 || i >= connections.len() {
        None
    } else {
        match import_fault(connections[i]) {
            Some(fault) => Some(fault),
            None => imports_fault(connections, i + 1),
        }
    }
}

/// What is wrong with the jump hosts of the connections from place `i` on: each is
/// checked as it is when it is saved.
pub open spec fn jumps_fault(connections: Seq<ConnectionProfileView>, i: int) -> Option<ErrorView>
    decreases connections.len() - i,
{
    if i < 0 || i >= connections.len() {
        None
    } else {
        match jump::jump_fault(connections, connections[i].id, connections[i].jump_host_ids) {
            Some(fault) => Some(fault),
            None => jumps_fault(connections, i + 1),
        }
    }
}

/// Checks the jump hosts of the connections from place `from` on.
fn check_jumps(connections: &Vec<ConnectionProfile>, from: usize) -> (r: Result<(), AppError>)
    requires
        from <= connections@.len(),
    ensures
        error::error_of(r) == jumps_fault(connections.deep_view(), from as int),
{
    let ghost view = connections.deep_view();
    let mut i: usize = from;
    while i < connections.len()
        invariant
            from <= i <= view.len(),
            jumps_fault(view, from as int) == jumps_fault(view, i as int),
        decreases view.len() - i,
    {
        assert(view[i as int] == connections@[i as int]@);
        validate_jump_hosts(connections, connections[i].id.as_str(), &connections[i].jump_host_ids)?;
        i = i + 1;
    }
    Ok(())
}

/// Whether a tunnel needs the consent of the user, where `loopback` says whether its
/// listening address stands for the machine itself.
pub open spec fn is_risky(tunnel: TunnelProfileView, loopback: bool) -> bool {
    tunnel.kind == TunnelKind::Remote || !loopback
}

/// What is wrong with the tunnels of another file from place `i` on, where the user did
/// not allow the risk: a tunnel whose connection is in that file and that needs the
/// consent of the user.
pub open spec fn tunnels_fault(
    imported: AssetDocumentView,
    loopback: Seq<bool>,
    i: int,
) -> Option<ErrorView>
    decreases imported.tunnels.len() - i,
{
    if i < 0 || i >= imported.tunnels.len() {
        None
    } else if lists::has_id::<ConnectionProfile>(
        imported.connections,
        imported.tunnels[i].connection_id,
    ) && is_risky(imported.tunnels[i], loopback[i]) {
        Some(assets::consent_required_error())
    } else {
        tunnels_fault(imported, loopback, i + 1)
    }
}

/// Checks the tunnels of another file, where the user did not allow the risk.
fn check_tunnels(imported: &AssetDocument, loopback: &Vec<bool>) -> (r: Result<(), AppError>)
    requires
        loopback@.len() == imported@.tunnels.len(),
    ensures
        error::error_of(r) == tunnels_fault(imported@, loopback@, 0),
{
    let ghost view = imported@.tunnels;
    let mut i: usize = 0;
    while i < imported.tunnels.len()
        invariant
            i <= view.len(),
            view.len() == imported.tunnels@.len(),
            tunnels_fault(imported@, loopback@, 0) == tunnels_fault(imported@, loopback@, i as int),
        decreases view.len() - i,
    {
        let tunnel = &imported.tunnels[i];
        assert(view[i as int] == tunnel@);
        if index_of(&imported.connections, tunnel.connection_id.as_str()).is_some() && (tunnel.kind
            == TunnelKind::Remote || !loopback[i]) {
            return Err(consent_required());
        }
        i = i + 1;
    }
    Ok(())
}

/// Whether the listening address of each tunnel stands for the machine itself.
pub open spec fn loopbacks(tunnels: Seq<TunnelProfileView>) -> Seq<bool> {
    Seq::new(
        tunnels.len(),
        |i: int|
            assets::loopback_host(
                text::trim(tunnels[i].bind_host),
                outside::ip_octets_of(text::trim(tunnels[i].bind_host)),
            ),
    )
}

/// Whether the listening address of each tunnel stands for the machine itself.
fn find_loopbacks(tunnels: &Vec<TunnelProfile>) -> (r: Vec<bool>)
    ensures
        r@ == loopbacks(tunnels.deep_view()),
{
    let ghost view = tunnels.deep_view();
    let mut r: Vec<bool> = Vec::new();
    let mut i: usize = 0;
    while i < tunnels.len()
        invariant
            i <= view.len(),
            r@.len() == i,
            forall|j: int| 0 <= j < i ==> #[trigger] r@[j] == loopbacks(view)[j],
        decreases view.len() - i,
    {
        assert(view[i as int] == tunnels@[i as int]@);
        r.push(is_loopback_host(trimmed(tunnels[i].bind_host.as_str()).as_str()));
        i = i + 1;
    }
    assert(r@ =~= loopbacks(view));
    r
}

/// New ids for the items of another file, one for each.
#[derive(Debug)]
pub struct ImportIds {
    pub groups: Vec<String>,
    pub connections: Vec<String>,
    pub tunnels: Vec<String>,
}

/// What [`ImportIds`] says.
#[verifier::ext_equal]
pub struct ImportIdsView {
    pub groups: Seq<Seq<char>>,
    pub connections: Seq<Seq<char>>,
    pub tunnels: Seq<Seq<char>>,
}

impl View for ImportIds {
    type V = ImportIdsView;

    open spec fn view(&self) -> ImportIdsView {
        ImportIdsView {
            groups: self.groups.deep_view(),
            connections: self.connections.deep_view(),
            tunnels: self.tunnels.deep_view(),
        }
    }
}

/// The groups after an import, and which group each of the other file became.
#[verifier::ext_equal]
pub struct GroupImport {
    pub groups: Seq<ConnectionGroupView>,
    pub became: Map<Seq<char>, Seq<char>>,
    pub added: int,
}

/// The place of the first group with this name, whatever the case of its letters,
/// or the number of groups.
pub open spec fn group_named(groups: Seq<ConnectionGroupView>, name: Seq<char>) -> int
    decreases groups.len(),
{
    if groups.len() == 0 {
        0
    } else if text::lower(groups[0].name) == text::lower(name) {
        0
    } else {
        1 + group_named(groups.drop_first(), name)
    }
}

/// The groups after one of the other file was taken in: it becomes the group that
/// has its name, or a new one.
pub open spec fn group_taken_in(
    state: GroupImport,
    group: ConnectionGroupView,
    new_id: Seq<char>,
) -> GroupImport {
    if group.id == DEFAULT_GROUP_ID@ {
        state
    } else {
        let at = group_named(state.groups, group.name);
        if at < state.groups.len() {
            GroupImport { became: state.became.insert(group.id, state.groups[at].id), ..state }
        } else {
            GroupImport {
                groups: state.groups.push(ConnectionGroupView { id: new_id, ..group }),
                became: state.became.insert(group.id, new_id),
                added: state.added + 1,
            }
        }
    }
}

/// The groups after those of the other file were taken in.
pub open spec fn groups_taken_in(
    groups: Seq<ConnectionGroupView>,
    imported: Seq<ConnectionGroupView>,
    ids: Seq<Seq<char>>,
) -> GroupImport
    decreases imported.len(),
{
    if imported.len() == 0 {
        GroupImport { groups, became: Map::empty(), added: 0 }
    } else {
        group_taken_in(
            groups_taken_in(groups, imported.drop_last(), ids),
            imported.last(),
            ids[imported.len() - 1],
        )
    }
}

/// Whether a connection has this name, whatever the case of its letters.
pub open spec fn similar_name(connections: Seq<ConnectionProfileView>, name: Seq<char>) -> bool {
    exists|i: int|
        0 <= i < connections.len() && text::lower((#[trigger] connections[i]).name) == text::lower(name)
}

/// The id that a connection of the other file gets: its own, or a new one where
/// that is taken.
pub open spec fn imported_id(
    connections: Seq<ConnectionProfileView>,
    id: Seq<char>,
    new_id: Seq<char>,
) -> Seq<char> {
    if lists::has_id::<ConnectionProfile>(connections, id) {
        new_id
    } else {
        id
    }
}

/// Which id each connection of the other file got.
pub open spec fn connections_became(
    connections: Seq<ConnectionProfileView>,
    imported: Seq<ConnectionProfileView>,
    ids: Seq<Seq<char>>,
) -> Map<Seq<char>, Seq<char>>
    decreases imported.len(),
{
    if imported.len() == 0 {
        Map::empty()
    } else {
        connections_became(connections, imported.drop_last(), ids).insert(
            imported.last().id,
            imported_id(connections, imported.last().id, ids[imported.len() - 1]),
        )
    }
}

/// How many connections of the other file have the name of a saved one.
pub open spec fn duplicate_names(
    connections: Seq<ConnectionProfileView>,
    imported: Seq<ConnectionProfileView>,
) -> int
    decreases imported.len(),
{
    if imported.len() == 0 {
        0
    } else {
        duplicate_names(connections, imported.drop_last()) + (if similar_name(
            connections,
            imported.last().name,
        ) {
            1int
        } else {
            0int
        })
    }
}

/// How many connections of the other file got a new id.
pub open spec fn regenerated(
    connections: Seq<ConnectionProfileView>,
    imported: Seq<ConnectionProfileView>,
) -> int
    decreases imported.len(),
{
    if imported.len() == 0 {
        0
    } else {
        regenerated(connections, imported.drop_last()) + (if lists::has_id::<ConnectionProfile>(
            connections,
            imported.last().id,
        ) {
            1int
        } else {
            0int
        })
    }
}

/// The value under a key, or another where there is none.
pub open spec fn value_or(
    map: Map<Seq<char>, Seq<char>>,
    key: Seq<char>,
    other: Seq<char>,
) -> Seq<char> {
    if map.contains_key(key) {
        map[key]
    } else {
        other
    }
}

/// A connection of the other file as it is saved here.
pub open spec fn imported_connection(
    connection: ConnectionProfileView,
    id: Seq<char>,
    groups: Map<Seq<char>, Seq<char>>,
    became: Map<Seq<char>, Seq<char>>,
) -> ConnectionProfileView {
    ConnectionProfileView {
        id,
        group_id: value_or(groups, connection.group_id, DEFAULT_GROUP_ID@),
        jump_host_ids: Seq::new(
            connection.jump_host_ids.len(),
            |i: int|
                value_or(became, connection.jump_host_ids[i], connection.jump_host_ids[i]),
        ),
        ..assets::without_references(connection)
    }
}

/// The tunnels after an import, and how many of the other file got a new id.
#[verifier::ext_equal]
pub struct TunnelImport {
    pub tunnels: Seq<TunnelProfileView>,
    pub regenerated: int,
}

/// The tunnels after one of the other file was taken in. It is left out where its
/// connection is not in the other file.
pub open spec fn tunnel_taken_in(
    state: TunnelImport,
    tunnel: TunnelProfileView,
    became: Map<Seq<char>, Seq<char>>,
    new_id: Seq<char>,
) -> TunnelImport {
    if !became.contains_key(tunnel.connection_id) {
        state
    } else {
        let moved = TunnelProfileView { connection_id: became[tunnel.connection_id], ..tunnel };
        if lists::has_id::<TunnelProfile>(state.tunnels, tunnel.id) {
            TunnelImport {
                tunnels: state.tunnels.push(TunnelProfileView { id: new_id, ..moved }),
                regenerated: state.regenerated + 1,
            }
        } else {
            TunnelImport { tunnels: state.tunnels.push(moved), ..state }
        }
    }
}

/// The tunnels after those of the other file were taken in.
pub open spec fn tunnels_taken_in(
    tunnels: Seq<TunnelProfileView>,
    imported: Seq<TunnelProfileView>,
    became: Map<Seq<char>, Seq<char>>,
    ids: Seq<Seq<char>>,
) -> TunnelImport
    decreases imported.len(),
{
    if imported.len() == 0 {
        TunnelImport { tunnels, regenerated: 0 }
    } else {
        tunnel_taken_in(
            tunnels_taken_in(tunnels, imported.drop_last(), became, ids),
            imported.last(),
            became,
            ids[imported.len() - 1],
        )
    }
}

/// The saved data after those of another file were taken in.
pub open spec fn document_imported(
    document: AssetDocumentView,
    imported: AssetDocumentView,
    ids: ImportIdsView,
) -> AssetDocumentView {
    let groups = groups_taken_in(document.groups, imported.groups, ids.groups);
    let became = connections_became(document.connections, imported.connections, ids.connections);
    AssetDocumentView {
        groups: groups.groups,
        connections: document.connections + Seq::new(
            imported.connections.len(),
            |i: int|
                imported_connection(
                    imported.connections[i],
                    imported_id(
                        document.connections,
                        imported.connections[i].id,
                        ids.connections[i],
                    ),
                    groups.became,
                    became,
                ),
        ),
        tunnels: tunnels_taken_in(
            document.tunnels,
            imported.tunnels,
            became,
            ids.tunnels,
        ).tunnels,
        ..document
    }
}

/// What an import did. The number of new ids is a natural number, and the summary
/// holds it where it can be counted.
pub open spec fn import_summary(
    document: AssetDocumentView,
    imported: AssetDocumentView,
    ids: ImportIdsView,
    path: Seq<char>,
) -> AssetTransferSummaryView {
    AssetTransferSummaryView {
        connections: imported.connections.len() as usize,
        groups: groups_taken_in(document.groups, imported.groups, ids.groups).added as usize,
        duplicate_names: duplicate_names(document.connections, imported.connections) as usize,
        regenerated_ids: import_regenerated(document, imported, ids) as usize,
        path,
    }
}

/// How many items of the other file got a new id.
pub open spec fn import_regenerated(
    document: AssetDocumentView,
    imported: AssetDocumentView,
    ids: ImportIdsView,
) -> int {
    regenerated(document.connections, imported.connections) + tunnels_taken_in(
        document.tunnels,
        imported.tunnels,
        connections_became(document.connections, imported.connections, ids.connections),
        ids.tunnels,
    ).regenerated
}

/// The place of the first group with this name, whatever the case of its letters.
fn find_group_named(groups: &Vec<ConnectionGroup>, name: &str) -> (r: Option<usize>)
    ensures
        match r {
            Some(i) => group_named(groups.deep_view(), name@) == i && i < groups@.len(),
            None => group_named(groups.deep_view(), name@) >= groups@.len(),
        },
{
    let ghost view = groups.deep_view();
    let mut i: usize = 0;
    assert(view.skip(0) =~= view);
    while i < groups.len()
        invariant
            i <= view.len(),
            group_named(view, name@) == i + group_named(view.skip(i as int), name@),
        decreases view.len() - i,
    {
        proof {
            assert(view.skip(i as int)[0] == groups@[i as int]@);
            assert(view.skip(i as int).drop_first() =~= view.skip(i + 1));
        }
        if same_ignoring_case(groups[i].name.as_str(), name) {
            return Some(i);
        }
        i = i + 1;
    }
    assert(view.skip(i as int) =~= Seq::empty());
    None
}

/// Whether a connection has this name, whatever the case of its letters.
fn has_similar_name(connections: &Vec<ConnectionProfile>, name: &str) -> (r: bool)
    ensures
        r == similar_name(connections.deep_view(), name@),
{
    let ghost view = connections.deep_view();
    let mut i: usize = 0;
    while i < connections.len()
        invariant
            i <= view.len(),
            forall|j: int| 0 <= j < i ==> text::lower((#[trigger] view[j]).name) != text::lower(name@),
        decreases view.len() - i,
    {
        assert(view[i as int] == connections@[i as int]@);
        if same_ignoring_case(connections[i].name.as_str(), name) {
            return true;
        }
        i = i + 1;
    }
    false
}

/// Checks the connections of another file.
pub fn validate_imported_connections(connections: &Vec<ConnectionProfile>) -> (r: Result<
    (),
    AppError,
>)
    ensures
        error::error_of(r) == imports_fault(connections.deep_view(), 0),
{
    let ghost view = connections.deep_view();
    let mut i: usize = 0;
    while i < connections.len()
        invariant
            i <= view.len(),
            imports_fault(view, 0) == imports_fault(view, i as int),
        decreases view.len() - i,
    {
        assert(view[i as int] == connections@[i as int]@);
        validate_imported_connection(&connections[i])?;
        i = i + 1;
    }
    Ok(())
}

/// Takes the groups of another file in, and says which group each became and how
/// many are new.
fn take_in_groups(
    groups: &mut Vec<ConnectionGroup>,
    imported: &Vec<ConnectionGroup>,
    ids: &Vec<String>,
) -> (r: (KeyedList<String>, usize))
    requires
        ids@.len() == imported@.len(),
    ensures
        r.0.wf(),
        groups_taken_in(old(groups).deep_view(), imported.deep_view(), ids.deep_view()) == (
        GroupImport {
            groups: final(groups).deep_view(),
            became: r.0.contents(),
            added: r.1 as int,
        }),
{
    let ghost before = groups.deep_view();
    let ghost view = imported.deep_view();
    let ghost names = ids.deep_view();
    let mut became: KeyedList<String> = KeyedList::new();
    let mut added: usize = 0;
    let mut i: usize = 0;
    proof {
        assert(view.take(0) =~= Seq::empty());
        assert(became.contents() =~= Map::empty());
    }
    while i < imported.len()
        invariant
            i <= view.len(),
            added <= i,
            became.wf(),
            groups_taken_in(before, view.take(i as int), names) == (GroupImport {
                groups: groups.deep_view(),
                became: became.contents(),
                added: added as int,
            }),
        decreases view.len() - i,
    {
        let group = &imported[i];
        proof {
            assert(view.take(i + 1).drop_last() =~= view.take(i as int));
            assert(view.take(i + 1).last() == group@);
            assert(names[i as int] == ids@[i as int]@);
        }
        if !same(group.id.as_str(), DEFAULT_GROUP_ID) {
            match find_group_named(groups, group.name.as_str()) {
                Some(at) => {
                    let id = groups[at].id.clone();
                    became.put(group.id.clone(), id);
                },
                None => {
                    became.put(group.id.clone(), ids[i].clone());
                    let ghost done = groups.deep_view();
                    let mut added_group = group.duplicate();
                    added_group.id = ids[i].clone();
                    let ghost one = added_group@;
                    groups.push(added_group);
                    assert(groups.deep_view() =~= done.push(one));
                    added = added + 1;
                },
            }
        }
        i = i + 1;
    }
    assert(view.take(i as int) =~= view);
    (became, added)
}

/// Gives the connections of another file their ids. Counts those with the name of
/// a saved one, and those that got a new id.
fn give_ids(
    connections: &Vec<ConnectionProfile>,
    imported: &Vec<ConnectionProfile>,
    ids: &Vec<String>,
) -> (r: (Vec<String>, KeyedList<String>, usize, usize))
    requires
        ids@.len() == imported@.len(),
    ensures
        r.1.wf(),
        r.0@.len() == imported@.len(),
        forall|i: int|
            0 <= i < r.0@.len() ==> (#[trigger] r.0@[i])@ == imported_id(
                connections.deep_view(),
                imported@[i].id@,
                ids@[i]@,
            ),
        r.1.contents() == connections_became(
            connections.deep_view(),
            imported.deep_view(),
            ids.deep_view(),
        ),
        r.2 == duplicate_names(connections.deep_view(), imported.deep_view()),
        r.3 == regenerated(connections.deep_view(), imported.deep_view()),
        r.3 <= imported@.len(),
{
    let ghost known = connections.deep_view();
    let ghost view = imported.deep_view();
    let ghost names = ids.deep_view();
    let mut given: Vec<String> = Vec::new();
    let mut became: KeyedList<String> = KeyedList::new();
    let mut duplicates: usize = 0;
    let mut new_ids: usize = 0;
    let mut i: usize = 0;
    proof {
        assert(view.take(0) =~= Seq::empty());
        assert(became.contents() =~= Map::empty());
    }
    while i < imported.len()
        invariant
            i <= view.len(),
            duplicates <= i,
            new_ids <= i,
            became.wf(),
            given@.len() == i,
            forall|j: int|
                0 <= j < i ==> (#[trigger] given@[j])@ == imported_id(
                    known,
                    imported@[j].id@,
                    ids@[j]@,
                ),
            became.contents() == connections_became(known, view.take(i as int), names),
            duplicates == duplicate_names(known, view.take(i as int)),
            new_ids == regenerated(known, view.take(i as int)),
        decreases view.len() - i,
    {
        let connection = &imported[i];
        proof {
            assert(view.take(i + 1).drop_last() =~= view.take(i as int));
            assert(view.take(i + 1).last() == connection@);
            assert(names[i as int] == ids@[i as int]@);
        }
        if has_similar_name(connections, connection.name.as_str()) {
            duplicates = duplicates + 1;
        }
        let id = if index_of(connections, connection.id.as_str()).is_some() {
            new_ids = new_ids + 1;
            ids[i].clone()
        } else {
            connection.id.clone()
        };
        became.put(connection.id.clone(), id.clone());
        given.push(id);
        i = i + 1;
    }
    assert(view.take(i as int) =~= view);
    (given, became, duplicates, new_ids)
}

/// A connection of another file as it is saved here.
fn import_connection(
    connection: &ConnectionProfile,
    id: String,
    groups: &KeyedList<String>,
    became: &KeyedList<String>,
) -> (r: ConnectionProfile)
    requires
        groups.wf(),
        became.wf(),
    ensures
        r@ == imported_connection(connection@, id@, groups.contents(), became.contents()),
{
    let mut r = strip_references(connection.duplicate());
    let ghost jumps = connection@.jump_host_ids;
    let mut ids: Vec<String> = Vec::new();
    let mut i: usize = 0;
    while i < connection.jump_host_ids.len()
        invariant
            i <= jumps.len(),
            ids@.len() == i,
            forall|j: int|
                0 <= j < i ==> (#[trigger] ids@[j])@ == value_or(
                    became.contents(),
                    jumps[j],
                    jumps[j],
                ),
        decreases jumps.len() - i,
    {
        let jump = &connection.jump_host_ids[i];
        assert(jump@ == jumps[i as int]);
        match became.text(jump.as_str()) {
            Some(id) => {
                ids.push(id);
            },
            None => {
                ids.push(jump.clone());
            },
        }
        i = i + 1;
    }
    assert(ids.deep_view() =~= imported_connection(
        connection@,
        id@,
        groups.contents(),
        became.contents(),
    ).jump_host_ids);
    r.id = id;
    r.group_id = match groups.text(connection.group_id.as_str()) {
        Some(id) => id,
        None => DEFAULT_GROUP_ID.to_owned(),
    };
    r.jump_host_ids = ids;
    r
}

/// Takes the tunnels of another file in, and counts those that got a new id.
fn take_in_tunnels(
    tunnels: &mut Vec<TunnelProfile>,
    imported: &Vec<TunnelProfile>,
    became: &KeyedList<String>,
    ids: &Vec<String>,
) -> (r: usize)
    requires
        became.wf(),
        ids@.len() == imported@.len(),
    ensures
        tunnels_taken_in(
            old(tunnels).deep_view(),
            imported.deep_view(),
            became.contents(),
            ids.deep_view(),
        ) == (TunnelImport { tunnels: final(tunnels).deep_view(), regenerated: r as int }),
        r <= imported@.len(),
{
    let ghost before = tunnels.deep_view();
    let ghost view = imported.deep_view();
    let ghost names = ids.deep_view();
    let mut count: usize = 0;
    let mut i: usize = 0;
    assert(view.take(0) =~= Seq::empty());
    while i < imported.len()
        invariant
            i <= view.len(),
            count <= i,
            tunnels_taken_in(before, view.take(i as int), became.contents(), names) == (
            TunnelImport { tunnels: tunnels.deep_view(), regenerated: count as int }),
        decreases view.len() - i,
    {
        let source = &imported[i];
        proof {
            assert(view.take(i + 1).drop_last() =~= view.take(i as int));
            assert(view.take(i + 1).last() == source@);
            assert(names[i as int] == ids@[i as int]@);
        }
        match became.text(source.connection_id.as_str()) {
            None => {},
            Some(connection_id) => {
                let ghost done = tunnels.deep_view();
                let mut tunnel = source.duplicate();
                tunnel.connection_id = connection_id;
                if index_of(tunnels, source.id.as_str()).is_some() {
                    tunnel.id = ids[i].clone();
                    count = count + 1;
                }
                let ghost one = tunnel@;
                tunnels.push(tunnel);
                assert(tunnels.deep_view() =~= done.push(one));
            },
        }
        i = i + 1;
    }
    assert(view.take(i as int) =~= view);
    count
}

/// As many new ids as asked for.
fn fresh_ids(count: usize) -> (r: Vec<String>)
    ensures
        r@.len() == count,
        forall|i: int| 0 <= i < count ==> outside::is_id_text(#[trigger] r.deep_view()[i]),
{
    let mut r: Vec<String> = Vec::new();
    while r.len() < count
        invariant
            r@.len() <= count,
            forall|i: int| 0 <= i < r@.len() ==> outside::is_id_text((#[trigger] r@[i])@),
        decreases count - r@.len(),
    {
        r.push(new_id());
    }
    assert forall|i: int| 0 <= i < count implies outside::is_id_text(
        #[trigger] r.deep_view()[i],
    ) by {
        assert(outside::is_id_text(r@[i]@));
    }
    r
}

/// Whether every new id has the form of a random one.
pub open spec fn ids_are_random(ids: ImportIdsView) -> bool {
    &&& forall|i: int| 0 <= i < ids.groups.len() ==> outside::is_id_text(#[trigger] ids.groups[i])
    &&& forall|i: int| 0 <= i < ids.connections.len() ==> outside::is_id_text(#[trigger] ids.connections[i])
    &&& forall|i: int| 0 <= i < ids.tunnels.len() ==> outside::is_id_text(#[trigger] ids.tunnels[i])
}

/// Whether there is a new id for every item of another file.
pub open spec fn ids_suffice(imported: AssetDocumentView, ids: ImportIdsView) -> bool {
    &&& ids.groups.len() == imported.groups.len()
    &&& ids.connections.len() == imported.connections.len()
    &&& ids.tunnels.len() == imported.tunnels.len()
}

/// What is wrong with another file: with the fields of a connection, with the jump
/// hosts that a connection would have here, or with a tunnel, unless the user allowed
/// the risk.
pub open spec fn file_fault(
    document: AssetDocumentView,
    imported: AssetDocumentView,
    ids: ImportIdsView,
    loopback: Seq<bool>,
    allow_non_loopback: bool,
) -> Option<ErrorView> {
    match imports_fault(imported.connections, 0) {
        Some(fault) => Some(fault),
        None => match jumps_fault(
            document_imported(document, imported, ids).connections,
            document.connections.len() as int,
        ) {
            Some(fault) => Some(fault),
            None => if allow_non_loopback {
                None
            } else {
                tunnels_fault(imported, loopback, 0)
            },
        },
    }
}

/// The saved data after an import and its summary, or what is wrong with the other
/// file. `loopback` says of each of its tunnels whether its listening address stands
/// for the machine itself.
pub open spec fn import_outcome(
    document: AssetDocumentView,
    imported: AssetDocumentView,
    ids: ImportIdsView,
    path: Seq<char>,
    loopback: Seq<bool>,
    allow_non_loopback: bool,
) -> Result<(AssetDocumentView, AssetTransferSummaryView), ErrorView> {
    match file_fault(document, imported, ids, loopback, allow_non_loopback) {
        Some(fault) => Err(fault),
        None => Ok(
            (
                document_imported(document, imported, ids),
                import_summary(document, imported, ids, path),
            ),
        ),
    }
}

/// The saved data after the data of another file were read and imported.
pub open spec fn file_imported(
    document: AssetDocumentView,
    imported: AssetDocumentView,
    ids: ImportIdsView,
    path: Seq<char>,
    now: Seq<char>,
    allow_non_loopback: bool,
) -> Result<(AssetDocumentView, AssetTransferSummaryView), ErrorView> {
    match admitted(imported, now) {
        Err(error) => Err(error),
        Ok(imported) => import_outcome(
            document,
            imported,
            ids,
            path,
            loopbacks(imported.tunnels),
            allow_non_loopback,
        ),
    }
}

impl AssetStore {
    /// Takes in the data of another file, with new ids for its items. `loopback` says
    /// of each of its tunnels whether its listening address stands for the machine
    /// itself, and `allow_non_loopback` whether the user allowed the risk of those that
    /// need it.
    pub fn import_at(
        &mut self,
        imported: &AssetDocument,
        path: &str,
        ids: &ImportIds,
        loopback: &Vec<bool>,
        allow_non_loopback: bool,
    ) -> (r: Result<AssetTransferSummary, AppError>)
        requires
            ids_suffice(imported@, ids@),
            loopback@.len() == imported@.tunnels.len(),
            imported@.connections.len() + imported@.tunnels.len() <= usize::MAX,
        ensures
            error::changes_as(
                old(self)@,
                final(self)@,
                r,
                import_outcome(
                    old(self)@,
                    imported@,
                    ids@,
                    path@,
                    loopback@,
                    allow_non_loopback,
                ),
            ),
    {
        let ghost before = self@;
        validate_imported_connections(&imported.connections)?;
        let mut group_list = duplicate_list(&self.document.groups);
        let (groups, added) = take_in_groups(&mut group_list, &imported.groups, &ids.groups);
        let (given, became, duplicates, new_ids) = give_ids(
            &self.document.connections,
            &imported.connections,
            &ids.connections,
        );
        let ghost wanted = document_imported(before, imported@, ids@).connections;
        let known: usize = self.document.connections.len();
        let count: usize = imported.connections.len();
        let mut connections = duplicate_list(&self.document.connections);
        let mut i: usize = 0;
        assert(connections.deep_view() =~= wanted.take(before.connections.len() as int));
        while i < imported.connections.len()
            invariant
                i <= imported@.connections.len(),
                connections@.len() == before.connections.len() + i,
                connections.deep_view() =~= wanted.take(before.connections.len() + i),
            decreases imported@.connections.len() - i,
        {
            let ghost done = connections.deep_view();
            let connection = import_connection(
                &imported.connections[i],
                given[i].clone(),
                &groups,
                &became,
            );
            let ghost one = connection@;
            connections.push(connection);
            proof {
                assert(connections.deep_view() =~= done.push(one));
                let place = before.connections.len() + i;
                assert(ids@.connections[i as int] == ids.connections@[i as int]@);
                assert(wanted[place as int] == one);
                assert(wanted.take(place + 1) =~= wanted.take(place as int).push(one));
            }
            i = i + 1;
        }
        assert(connections.deep_view() =~= wanted);
        check_jumps(&connections, known)?;
        if !allow_non_loopback {
            check_tunnels(imported, loopback)?;
        }
        self.document.groups = group_list;
        self.document.connections = connections;
        let regenerated_tunnels: usize = take_in_tunnels(
            &mut self.document.tunnels,
            &imported.tunnels,
            &became,
            &ids.tunnels,
        );
        Ok(
            AssetTransferSummary {
                connections: count,
                groups: added,
                duplicate_names: duplicates,
                regenerated_ids: new_ids + regenerated_tunnels,
                path: path.to_owned(),
            },
        )
    }

    /// Takes in the data of another file. `allow_non_loopback` says whether the user
    /// allowed the risk of the tunnels that need it.
    pub fn import_from(
        &mut self,
        imported: AssetDocument,
        path: &str,
        allow_non_loopback: bool,
    ) -> (r: Result<AssetTransferSummary, AppError>)
        requires
            imported@.connections.len() + imported@.tunnels.len() <= usize::MAX,
        ensures
            exists|ids: ImportIdsView, now: Seq<char>|
                ids_are_random(ids) && (admitted(imported@, now) matches Ok(document)
                    ==> ids_suffice(document, ids)) && #[trigger] error::changes_as(
                    old(self)@,
                    final(self)@,
                    r,
                    file_imported(
                        old(self)@,
                        imported@,
                        ids,
                        path@,
                        now,
                        allow_non_loopback,
                    ),
                ),
    {
        let time = now();
        let ghost given = imported@;
        match admit_document(imported, time.as_str()) {
            Err(error) => {
                proof {
                    let none = ImportIdsView {
                        groups: Seq::empty(),
                        connections: Seq::empty(),
                        tunnels: Seq::empty(),
                    };
                    assert(ids_are_random(none));
                    let r: Result<AssetTransferSummary, AppError> = Err(error);
                    assert(error::changes_as(
                        self@,
                        self@,
                        r,
                        file_imported(self@, given, none, path@, time@, allow_non_loopback),
                    ));
                }
                Err(error)
            },
            Ok(document) => {
                let ids = ImportIds {
                    groups: fresh_ids(document.groups.len()),
                    connections: fresh_ids(document.connections.len()),
                    tunnels: fresh_ids(document.tunnels.len()),
                };
                assert(ids_are_random(ids@));
                let ghost before = self@;
                let loopback = find_loopbacks(&document.tunnels);
                let r = self.import_at(&document, path, &ids, &loopback, allow_non_loopback);
                assert(error::changes_as(
                    before,
                    self@,
                    r,
                    file_imported(before, given, ids@, path@, time@, allow_non_loopback),
                ));
                r
            },
        }
    }
}

} // verus!
