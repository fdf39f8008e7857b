//! The saved connections, groups, recent targets and tunnels.

#![verifier::loop_isolation(false)]

use crate::error::{self, AppError, ErrorView};
use crate::lists::{self, HasId, index_of, remove_id};
use crate::models::{
    AssetDocument, AssetDocumentView, AssetTransferSummary, AssetTransferSummaryView,
    ConnectionAssetSnapshot, ConnectionGroup, ConnectionGroupView, ConnectionProfile,
    ConnectionProfileView, Duplicate, GroupNameRequest, GroupNameRequestView, ProxyProfile,
    ProxyProfileView, RecentTarget, RecentTargetView, SaveTunnelRequest, SaveTunnelRequestView,
    TunnelKind, TunnelProfile, TunnelProfileView, TunnelStartPolicy, duplicate_list,
};
use crate::outside::{self, ip_octets, lowercase, new_id, now};
use crate::sort::{self, SortKey, order_of};
use crate::text::{
    self, byte_len, cat2, cat4, char_len, chars_of, clone_text, comes_before, decimal_text,
    find_first, has_break, same, same_ignoring_case, same_option, take_chars, text_between, trimmed,
};
use vstd::prelude::*;

verus! {

/// The group that always exists.
pub const DEFAULT_GROUP_ID: &'static str = "default";

/// The version of the saved data that this library writes.
pub const SCHEMA_VERSION: u16 = 3;

/// The number of recent targets that are kept.
pub const MAX_RECENT_TARGETS: usize = 10;

impl HasId for ConnectionGroup {
    open spec fn id_of(item: ConnectionGroupView) -> Seq<char> {
        item.id
    }

    fn id(&self) -> (r: &str) {
        self.id.as_str()
    }
}

impl HasId for ConnectionProfile {
    open spec fn id_of(item: ConnectionProfileView) -> Seq<char> {
        item.id
    }

    fn id(&self) -> (r: &str) {
        self.id.as_str()
    }
}

impl HasId for TunnelProfile {
    open spec fn id_of(item: TunnelProfileView) -> Seq<char> {
        item.id
    }

    fn id(&self) -> (r: &str) {
        self.id.as_str()
    }
}

/// Whether a host address cannot be used: it is blank, too long or breaks a line.
pub open spec fn bad_host(host: Seq<char>) -> bool {
    text::trim(host).len() == 0 || text::utf8_len(host) > 255 || text::breaks_line(host)
}

/// Whether a host address cannot be used.
pub fn host_is_bad(host: &str) -> (r: bool)
    ensures
        r == bad_host(host@),
{
    char_len(trimmed(host).as_str()) == 0 || byte_len(host) > 255 || has_break(host)
}

/// The saved data.
pub struct AssetStore {
    pub document: AssetDocument,
}

impl View for AssetStore {
    type V = AssetDocumentView;

    open spec fn view(&self) -> AssetDocumentView {
        self.document@
    }
}

/// What is wrong with the name of a group.
pub open spec fn group_name_fault(name: Seq<char>) -> Option<ErrorView> {
    if text::trim(name).len() == 0 || text::trim(name).len() > 64 {
        Some(error::validation_error("分组名称长度必须为 1～64 个字符"@))
    } else {
        None
    }
}

/// Whether a group other than the one with the id `id` has this name, whatever
/// the case of its letters.
pub open spec fn group_name_taken(
    groups: Seq<ConnectionGroupView>,
    name: Seq<char>,
    id: Option<Seq<char>>,
) -> bool {
    exists|i: int|
        0 <= i < groups.len() && text::lower((#[trigger] groups[i]).name) == text::lower(name) && Some(
            groups[i].id,
        ) != id
}

/// The saved data after a group was created or renamed, and the group.
pub open spec fn group_saved(
    document: AssetDocumentView,
    request: GroupNameRequestView,
    new_id: Seq<char>,
    now: Seq<char>,
) -> Result<(AssetDocumentView, ConnectionGroupView), ErrorView> {
    let name = text::trim(request.name);
    match group_name_fault(request.name) {
        Some(fault) => Err(fault),
        None => if group_name_taken(document.groups, name, request.id) {
            Err(error::validation_error("分组名称已存在"@))
        } else {
            match request.id {
                Some(id) => if id == DEFAULT_GROUP_ID@ {
                    Err(error::validation_error("默认分组不可重命名"@))
                } else if !lists::has_id::<ConnectionGroup>(document.groups, id) {
                    Err(error::asset_not_found_error("group"@, id))
                } else {
                    let at = lists::place_of::<ConnectionGroup>(document.groups, id);
                    let group = ConnectionGroupView {
                        name,
                        updated_at: now,
                        ..document.groups[at]
                    };
                    Ok(
                        (
                            AssetDocumentView {
                                groups: document.groups.update(at, group),
                                ..document
                            },
                            group,
                        ),
                    )
                },
                None => {
                    let group = ConnectionGroupView {
                        id: new_id,
                        name,
                        created_at: now,
                        updated_at: now,
                    };
                    Ok(
                        (
                            AssetDocumentView { groups: document.groups.push(group), ..document },
                            group,
                        ),
                    )
                },
            }
        },
    }
}

/// A connection moved to the default group, where it was in the group `id`.
pub open spec fn moved_to_default(
    connection: ConnectionProfileView,
    id: Seq<char>,
    now: Seq<char>,
) -> ConnectionProfileView {
    if connection.group_id == id {
        ConnectionProfileView { group_id: DEFAULT_GROUP_ID@, updated_at: now, ..connection }
    } else {
        connection
    }
}

/// The saved data after a group was deleted: its connections are in the default
/// group.
pub open spec fn group_deleted(
    document: AssetDocumentView,
    id: Seq<char>,
    now: Seq<char>,
) -> Result<(AssetDocumentView, ()), ErrorView> {
    if id == DEFAULT_GROUP_ID@ {
        Err(error::validation_error("默认分组不可删除"@))
    } else if !lists::has_id::<ConnectionGroup>(document.groups, id) {
        Err(error::asset_not_found_error("group"@, id))
    } else {
        Ok(
            (
                AssetDocumentView {
                    groups: lists::others::<ConnectionGroup>(document.groups, id),
                    connections: Seq::new(
                        document.connections.len(),
                        |i: int| moved_to_default(document.connections[i], id, now),
                    ),
                    ..document
                },
                (),
            ),
        )
    }
}

/// The text of the `n`th suffix that tells a copy from its source.
pub open spec fn copy_suffix(n: int) -> Seq<char> {
    if n == 1 {
        " - "@ + "副本"@
    } else {
        " - "@ + ("副本 "@ + text::decimal(n as nat))
    }
}

/// The `n`th name to try for a copy: as much of the name as leaves room for the
/// suffix, and the suffix.
pub open spec fn copy_name(name: Seq<char>, n: int) -> Seq<char> {
    let room = if copy_suffix(n).len() > 64 {
        0
    } else {
        64 - copy_suffix(n).len()
    };
    text::first_chars(name, room as nat) + copy_suffix(n)
}

/// Whether a connection has this name.
pub open spec fn name_taken(connections: Seq<ConnectionProfileView>, name: Seq<char>) -> bool {
    exists|i: int| 0 <= i < connections.len() && (#[trigger] connections[i]).name == name
}

/// The first free name for a copy from the `n`th on, or the first name where all
/// up to the last are taken.
pub open spec fn free_copy_name(
    name: Seq<char>,
    connections: Seq<ConnectionProfileView>,
    n: int,
) -> Seq<char>
    decreases 1000 - n,
{
    if n > 999 {
        text::first_chars(name, 59) + " - 副本"@
    } else if !name_taken(connections, copy_name(name, n)) {
        copy_name(name, n)
    } else {
        free_copy_name(name, connections, n + 1)
    }
}

/// A proxy without its reference to a saved password.
pub open spec fn proxy_without_reference(proxy: Option<ProxyProfileView>) -> Option<
    ProxyProfileView,
> {
    match proxy {
        Some(proxy) => Some(ProxyProfileView { credential_ref: None, ..proxy }),
        None => None,
    }
}

/// The saved data after a connection was copied, and the copy.
pub open spec fn connection_copied(
    document: AssetDocumentView,
    id: Seq<char>,
    new_id: Seq<char>,
    now: Seq<char>,
) -> Result<(AssetDocumentView, ConnectionProfileView), ErrorView> {
    if !lists::has_id::<ConnectionProfile>(document.connections, id) {
        Err(error::asset_not_found_error("connection"@, id))
    } else {
        let source = document.connections[lists::place_of::<ConnectionProfile>(document.connections, id)];
        let copy = ConnectionProfileView {
            id: new_id,
            name: free_copy_name(source.name, document.connections, 1),
            credential_ref: None,
            proxy: proxy_without_reference(source.proxy),
            last_connected_at: None,
            created_at: now,
            updated_at: now,
            ..source
        };
        Ok(
            (
                AssetDocumentView { connections: document.connections.push(copy), ..document },
                copy,
            ),
        )
    }
}

/// The saved data after a connection was used.
pub open spec fn connection_used(
    document: AssetDocumentView,
    id: Seq<char>,
    now: Seq<char>,
) -> Result<(AssetDocumentView, ()), ErrorView> {
    if !lists::has_id::<ConnectionProfile>(document.connections, id) {
        Err(error::asset_not_found_error("connection"@, id))
    } else {
        let at = lists::place_of::<ConnectionProfile>(document.connections, id);
        let connection = ConnectionProfileView {
            last_connected_at: Some(now),
            ..document.connections[at]
        };
        Ok(
            (
                AssetDocumentView {
                    connections: document.connections.update(at, connection),
                    ..document
                },
                (),
            ),
        )
    }
}

/// What is shown of a quick-connect target: the user and the first three
/// characters of the host.
pub open spec fn masked_target(target: Seq<char>) -> Result<Seq<char>, ErrorView> {
    let text = text::trim(target);
    match text::first_position(text, '@') {
        None => Err(error::validation_error("快速连接格式应为 user@host 或 user@host:port"@)),
        Some(at) => {
            let user = text.take(at);
            let host = text.skip(at + 1);
            if user.len() == 0 || host.len() == 0 {
                Err(error::validation_error("快速连接格式应为 user@host 或 user@host:port"@))
            } else {
                Ok(user + "@"@ + text::first_chars(host, 3) + "***"@)
            }
        },
    }
}

/// The recent targets that show something else.
pub open spec fn other_targets(
    targets: Seq<RecentTargetView>,
    shown: Seq<char>,
) -> Seq<RecentTargetView>
    decreases targets.len(),
{
    if targets.len() == 0 {
        Seq::empty()
    } else if targets.last().display_target == shown {
        other_targets(targets.drop_last(), shown)
    } else {
        other_targets(targets.drop_last(), shown).push(targets.last())
    }
}

/// The first ten of the recent targets.
pub open spec fn newest_targets(targets: Seq<RecentTargetView>) -> Seq<RecentTargetView> {
    if targets.len() > MAX_RECENT_TARGETS {
        targets.take(MAX_RECENT_TARGETS as int)
    } else {
        targets
    }
}

/// The saved data after a quick-connect target was used: it comes first among the
/// recent ones, and stands there once.
pub open spec fn target_recorded(
    document: AssetDocumentView,
    target: Seq<char>,
    now: Seq<char>,
) -> Result<(AssetDocumentView, ()), ErrorView> {
    match masked_target(target) {
        Err(error) => Err(error),
        Ok(shown) => Ok(
            (
                AssetDocumentView {
                    recent_targets: newest_targets(
                        seq![RecentTargetView { display_target: shown, last_used_at: now }]
                            + other_targets(document.recent_targets, shown),
                    ),
                    ..document
                },
                (),
            ),
        ),
    }
}

/// Whether an address stands for the machine itself: one of 127.0.0.0/8, or ::1.
pub open spec fn loopback_octets(octets: Seq<u8>) -> bool {
    ||| octets.len() == 4 && octets[0] == 127
    ||| octets.len() == 16 && octets[15] == 1 && (forall|i: int|
        0 <= i < 15 ==> #[trigger] octets[i] == 0)
}

/// Whether a host with this address stands for the machine itself.
pub open spec fn loopback_host(host: Seq<char>, octets: Option<Seq<u8>>) -> bool {
    text::lower(host) == text::lower("localhost"@) || match octets {
        Some(octets) => loopback_octets(octets),
        None => false,
    }
}

/// The error for a tunnel that needs the consent of the user.
pub open spec fn consent_required_error() -> ErrorView {
    error::ssh_error(
        "TUNNEL-RISK-CONFIRMATION-REQUIRED"@,
        "远程转发或非本机监听地址需要明确确认"@,
        "risky tunnel requested without explicit confirmation"@,
        false,
    )
}

/// The error for a tunnel that needs the consent of the user.
pub fn consent_required() -> (r: AppError)
    ensures
        r@ == consent_required_error(),
{
    AppError::ssh(
        "TUNNEL-RISK-CONFIRMATION-REQUIRED",
        "远程转发或非本机监听地址需要明确确认",
        "risky tunnel requested without explicit confirmation",
        false,
    )
}

/// What is wrong with a tunnel, where `loopback` says whether its listening
/// address stands for the machine itself.
pub open spec fn tunnel_fault(request: SaveTunnelRequestView, loopback: bool) -> Option<ErrorView> {
    let name = text::trim(request.name);
    let bind_host = text::trim(request.bind_host);
    let target_host = match request.target_host {
        Some(host) => text::trim(host),
        None => Seq::empty(),
    };
    if name.len() == 0 || name.len() > 64 {
        Some(error::validation_error("隧道名称长度必须为 1～64 个字符"@))
    } else if bind_host.len() == 0 || text::utf8_len(bind_host) > 255 || text::breaks_line(bind_host) {
        Some(error::validation_error("隧道监听地址无效"@))
    } else if (request.kind == TunnelKind::Remote || !loopback) && !request.allow_non_loopback {
        Some(consent_required_error())
    } else if request.kind != TunnelKind::Dynamic && (target_host.len() == 0 || text::utf8_len(
        target_host,
    ) > 255 || text::breaks_line(target_host) || request.target_port is None || request.target_port
        == Some(0u16)) {
        Some(error::validation_error("隧道目标地址或端口无效"@))
    } else {
        None
    }
}

/// A text without the white space around it, or nothing where nothing is left.
pub open spec fn trimmed_option(value: Option<Seq<char>>) -> Option<Seq<char>> {
    match value {
        Some(text) => if text::trim(text).len() == 0 {
            None
        } else {
            Some(text::trim(text))
        },
        None => None,
    }
}

/// The saved data after a tunnel was created or changed, and the tunnel.
pub open spec fn tunnel_saved(
    document: AssetDocumentView,
    request: SaveTunnelRequestView,
    loopback: bool,
    new_id: Seq<char>,
    now: Seq<char>,
) -> Result<(AssetDocumentView, TunnelProfileView), ErrorView> {
    let id = match request.id {
        Some(id) => id,
        None => new_id,
    };
    let exists_already = lists::has_id::<TunnelProfile>(document.tunnels, id);
    match tunnel_fault(request, loopback) {
        Some(fault) => Err(fault),
        None => if !lists::has_id::<ConnectionProfile>(document.connections, request.connection_id) {
            Err(error::asset_not_found_error("connection"@, request.connection_id))
        } else if request.id is Some && !exists_already {
            Err(error::asset_not_found_error("tunnel"@, id))
        } else {
            let tunnel = TunnelProfileView {
                id,
                name: text::trim(request.name),
                connection_id: request.connection_id,
                kind: request.kind,
                bind_host: text::trim(request.bind_host),
                bind_port: request.bind_port,
                target_host: trimmed_option(request.target_host),
                target_port: request.target_port,
                start_policy: request.start_policy,
                created_at: if exists_already {
                    document.tunnels[lists::place_of::<TunnelProfile>(document.tunnels, id)].created_at
                } else {
                    now
                },
                updated_at: now,
            };
            Ok(
                (
                    AssetDocumentView {
                        tunnels: lists::others::<TunnelProfile>(document.tunnels, id).push(tunnel),
                        ..document
                    },
                    tunnel,
                ),
            )
        },
    }
}

/// The saved data after a tunnel was copied, and the copy. The copy has no
/// listening port yet.
pub open spec fn tunnel_copied(
    document: AssetDocumentView,
    id: Seq<char>,
    new_id: Seq<char>,
    now: Seq<char>,
) -> Result<(AssetDocumentView, TunnelProfileView), ErrorView> {
    if !lists::has_id::<TunnelProfile>(document.tunnels, id) {
        Err(error::asset_not_found_error("tunnel"@, id))
    } else {
        let source = document.tunnels[lists::place_of::<TunnelProfile>(document.tunnels, id)];
        let copy = TunnelProfileView {
            id: new_id,
            name: source.name + " - 副本"@,
            bind_port: 0,
            created_at: now,
            updated_at: now,
            ..source
        };
        Ok((AssetDocumentView { tunnels: document.tunnels.push(copy), ..document }, copy))
    }
}

/// The saved data after a tunnel was deleted.
pub open spec fn tunnel_deleted(document: AssetDocumentView, id: Seq<char>) -> Result<
    (AssetDocumentView, ()),
    ErrorView,
> {
    if !lists::has_id::<TunnelProfile>(document.tunnels, id) {
        Err(error::asset_not_found_error("tunnel"@, id))
    } else {
        Ok(
            (
                AssetDocumentView {
                    tunnels: lists::others::<TunnelProfile>(document.tunnels, id),
                    ..document
                },
                (),
            ),
        )
    }
}

/// The tunnels that start with a connection.
pub open spec fn tunnels_to_start(
    tunnels: Seq<TunnelProfileView>,
    connection_id: Seq<char>,
) -> Seq<TunnelProfileView>
    decreases tunnels.len(),
{
    if tunnels.len() == 0 {
        Seq::empty()
    } else {
        let rest = tunnels_to_start(tunnels.drop_last(), connection_id);
        let last = tunnels.last();
        if last.connection_id == connection_id && last.start_policy
            == TunnelStartPolicy::WithConnection {
            rest.push(last)
        } else {
            rest
        }
    }
}

/// Whether a group other than the one with the id `id` has this name.
fn group_name_is_taken(groups: &Vec<ConnectionGroup>, name: &str, id: &Option<String>) -> (r: bool)
    ensures
        r == group_name_taken(groups.deep_view(), name@, id.deep_view()),
{
    let ghost view = groups.deep_view();
    let mut i: usize = 0;
    while i < groups.len()
        invariant
            i <= groups@.len(),
            forall|j: int|
                0 <= j < i ==> !(text::lower((#[trigger] view[j]).name) == text::lower(name@) && Some(view[j].id)
                    != id.deep_view()),
        decreases groups@.len() - i,
    {
        assert(view[i as int] == groups@[i as int]@);
        if same_ignoring_case(groups[i].name.as_str(), name) {
            let own = match id {
                Some(id) => same(groups[i].id.as_str(), id.as_str()),
                None => false,
            };
            if !own {
                return true;
            }
        }
        i = i + 1;
    }
    false
}

/// Whether a connection has this name.
fn name_is_taken(connections: &Vec<ConnectionProfile>, name: &str) -> (r: bool)
    ensures
        r == name_taken(connections.deep_view(), name@),
{
    let ghost view = connections.deep_view();
    let mut i: usize = 0;
    while i < connections.len()
        invariant
            i <= connections@.len(),
            forall|j: int| 0 <= j < i ==> (#[trigger] view[j]).name != name@,
        decreases connections@.len() - i,
    {
        assert(view[i as int] == connections@[i as int]@);
        if same(connections[i].name.as_str(), name) {
            return true;
        }
        i = i + 1;
    }
    false
}

/// A free name for a copy of the connection with this name.
pub fn duplicate_name(name: &str, existing: &Vec<ConnectionProfile>) -> (r: String)
    ensures
        r@ == free_copy_name(name@, existing.deep_view(), 1),
{
    let mut index: u64 = 1;
    while index <= 999
        invariant
            1 <= index <= 1000,
            free_copy_name(name@, existing.deep_view(), 1) == free_copy_name(
                name@,
                existing.deep_view(),
                index as int,
            ),
        decreases 1000 - index,
    {
        let number = if index == 1 {
            "副本".to_owned()
        } else {
            cat2("副本 ", decimal_text(index).as_str())
        };
        let suffix = cat2(" - ", number.as_str());
        assert(suffix@ == copy_suffix(index as int));
        let length: usize = char_len(suffix.as_str());
        let room: usize = if length > 64 {
            0
        } else {
            64 - length
        };
        let candidate = cat2(take_chars(name, room).as_str(), suffix.as_str());
        if !name_is_taken(existing, candidate.as_str()) {
            return candidate;
        }
        index = index + 1;
    }
    cat2(take_chars(name, 59).as_str(), " - 副本")
}

/// What is shown of a quick-connect target.
pub fn mask_target(target: &str) -> (r: Result<String, AppError>)
    ensures
        error::ends_as(r, masked_target(target@)),
{
    let text = trimmed(target);
    let chars = chars_of(text.as_str());
    match find_first(&chars, '@') {
        None => Err(AppError::validation("快速连接格式应为 user@host 或 user@host:port")),
        Some(at) => {
            let total: usize = chars.len();
            let user = text_between(&chars, 0, at);
            let host = text_between(&chars, at + 1, total);
            proof {
                assert(chars@.subrange(0, at as int) =~= text@.take(at as int));
                assert(chars@.subrange(at + 1, total as int) =~= text@.skip(at + 1));
            }
            if at == 0 || at + 1 == total {
                return Err(AppError::validation("快速连接格式应为 user@host 或 user@host:port"));
            }
            let visible = take_chars(host.as_str(), 3);
            Ok(cat4(user.as_str(), "@", visible.as_str(), "***"))
        },
    }
}

/// Whether an address stands for the machine itself.
pub fn octets_are_loopback(octets: &Vec<u8>) -> (r: bool)
    ensures
        r == loopback_octets(octets@),
{
    if octets.len() == 4 {
        return octets[0] == 127;
    }
    if octets.len() != 16 || octets[15] != 1 {
        return false;
    }
    let mut i: usize = 0;
    while i < 15
        invariant
            i <= 15,
            forall|j: int| 0 <= j < i ==> octets@[j] == 0,
        decreases 15 - i,
    {
        if octets[i] != 0 {
            assert(octets@[i as int] != 0);
            return false;
        }
        i = i + 1;
    }
    true
}

/// Whether a host with this address stands for the machine itself.
pub fn host_is_loopback(host: &str, octets: &Option<Vec<u8>>) -> (r: bool)
    ensures
        r == loopback_host(host@, octets.deep_view()),
{
    same_ignoring_case(host, "localhost") || match octets {
        Some(octets) => {
            assert(octets.deep_view() =~= octets@);
            octets_are_loopback(octets)
        },
        None => false,
    }
}

/// Whether a host stands for the machine itself.
pub fn is_loopback_host(host: &str) -> (r: bool)
    ensures
        r == loopback_host(host@, outside::ip_octets_of(host@)),
{
    host_is_loopback(host, &ip_octets(host))
}

/// Checks a tunnel, given whether its listening address stands for the machine
/// itself.
pub fn validate_tunnel_at(request: &SaveTunnelRequest, loopback: bool) -> (r: Result<(), AppError>)
    ensures
        error::error_of(r) == tunnel_fault(request@, loopback),
{
    let name = trimmed(request.name.as_str());
    let bind_host = trimmed(request.bind_host.as_str());
    if char_len(name.as_str()) == 0 || char_len(name.as_str()) > 64 {
        return Err(AppError::validation("隧道名称长度必须为 1～64 个字符"));
    }
    if char_len(bind_host.as_str()) == 0 || byte_len(bind_host.as_str()) > 255 || has_break(
        bind_host.as_str(),
    ) {
        return Err(AppError::validation("隧道监听地址无效"));
    }
    if (request.kind == TunnelKind::Remote || !loopback) && !request.allow_non_loopback {
        return Err(consent_required());
    }
    if request.kind != TunnelKind::Dynamic {
        let target_host = match &request.target_host {
            Some(host) => trimmed(host.as_str()),
            None => String::new(),
        };
        let target_port: u16 = match request.target_port {
            Some(port) => port,
            None => 0,
        };
        if char_len(target_host.as_str()) == 0 || byte_len(target_host.as_str()) > 255 || has_break(
            target_host.as_str(),
        ) || target_port == 0 {
            return Err(AppError::validation("隧道目标地址或端口无效"));
        }
    }
    Ok(())
}

/// Checks a tunnel.
pub fn validate_tunnel(request: &SaveTunnelRequest) -> (r: Result<(), AppError>)
    ensures
        error::error_of(r) == tunnel_fault(
            request@,
            loopback_host(text::trim(request.bind_host@), outside::ip_octets_of(text::trim(request.bind_host@))),
        ),
{
    let bind_host = trimmed(request.bind_host.as_str());
    validate_tunnel_at(request, is_loopback_host(bind_host.as_str()))
}

/// A text without the white space around it, or nothing where nothing is left.
pub fn trimmed_value(value: &Option<String>) -> (r: Option<String>)
    ensures
        r.deep_view() == trimmed_option(value.deep_view()),
{
    match value {
        Some(text) => {
            let text = trimmed(text.as_str());
            if char_len(text.as_str()) == 0 {
                None
            } else {
                Some(text)
            }
        },
        None => None,
    }
}

impl AssetStore {
    /// A store that holds this data.
    pub fn new(document: AssetDocument) -> (r: Self)
        ensures
            r@ == document@,
    {
        AssetStore { document }
    }

    /// The data, as they are written.
    pub fn into_document(self) -> (r: AssetDocument)
        ensures
            r@ == self@,
    {
        self.document
    }

    /// Creates a group, or renames the one whose id is given. `new_id` is the id
    /// of a new group, and `now` the present time.
    pub fn save_group_at(
        &mut self,
        request: GroupNameRequest,
        new_id: String,
        now: String,
    ) -> (r: Result<ConnectionGroup, AppError>)
        ensures
            error::changes_as(old(self)@, final(self)@, r, group_saved(old(self)@, request@, new_id@, now@)),
    {
        let ghost before = self@;
        let name = trimmed(request.name.as_str());
        if char_len(name.as_str()) == 0 || char_len(name.as_str()) > 64 {
            return Err(AppError::validation("分组名称长度必须为 1～64 个字符"));
        }
        if group_name_is_taken(&self.document.groups, name.as_str(), &request.id) {
            return Err(AppError::validation("分组名称已存在"));
        }
        match request.id {
            Some(id) => {
                if same(id.as_str(), DEFAULT_GROUP_ID) {
                    return Err(AppError::validation("默认分组不可重命名"));
                }
                match index_of(&self.document.groups, id.as_str()) {
                    None => Err(AppError::asset_not_found("group", id.as_str())),
                    Some(at) => {
                        let source = &self.document.groups[at];
                        let group = ConnectionGroup {
                            id: source.id.clone(),
                            name,
                            created_at: source.created_at.clone(),
                            updated_at: now,
                        };
                        let copy = group.duplicate();
                        self.document.groups[at] = group;
                        assert(self@.groups =~= before.groups.update(at as int, copy@));
                        Ok(copy)
                    },
                }
            },
            None => {
                let group = ConnectionGroup {
                    id: new_id,
                    name,
                    created_at: now.clone(),
                    updated_at: now,
                };
                let copy = group.duplicate();
                self.document.groups.push(group);
                assert(self@.groups =~= before.groups.push(copy@));
                Ok(copy)
            },
        }
    }

    /// Creates a group, or renames the one whose id is given.
    pub fn save_group(&mut self, request: GroupNameRequest) -> (r: Result<ConnectionGroup, AppError>)
        ensures
            exists|new_id: Seq<char>, now: Seq<char>|
                outside::is_id_text(new_id) && #[trigger] error::changes_as(
                    old(self)@,
                    final(self)@,
                    r,
                    group_saved(old(self)@, request@, new_id, now),
                ),
    {
        let id = new_id();
        let time = now();
        self.save_group_at(request, id, time)
    }

    /// Deletes a group. Its connections move to the default group.
    pub fn delete_group_at(&mut self, id: &str, now: &str) -> (r: Result<(), AppError>)
        ensures
            error::changes_as(old(self)@, final(self)@, r, group_deleted(old(self)@, id@, now@)),
    {
        let ghost before = self@;
        if same(id, DEFAULT_GROUP_ID) {
            return Err(AppError::validation("默认分组不可删除"));
        }
        if index_of(&self.document.groups, id).is_none() {
            return Err(AppError::asset_not_found("group", id));
        }
        remove_id(&mut self.document.groups, id);
        let mut i: usize = 0;
        while i < self.document.connections.len()
            invariant
                i <= self.document.connections@.len(),
                self.document.connections@.len() == before.connections.len(),
                forall|j: int|
                    0 <= j < i ==> (#[trigger] self.document.connections@[j])@ == moved_to_default(
                        before.connections[j],
                        id@,
                        now@,
                    ),
                forall|j: int|
                    i <= j < self.document.connections@.len() ==> (
                    #[trigger] self.document.connections@[j])@ == before.connections[j],
                self@.groups == lists::others::<ConnectionGroup>(before.groups, id@),
                self@.recent_targets == before.recent_targets,
                self@.tunnels == before.tunnels,
                self@.schema_version == before.schema_version,
            decreases self.document.connections@.len() - i,
        {
            if same(self.document.connections[i].group_id.as_str(), id) {
                let mut connection = self.document.connections[i].duplicate();
                connection.group_id = DEFAULT_GROUP_ID.to_owned();
                connection.updated_at = now.to_owned();
                self.document.connections[i] = connection;
            }
            i = i + 1;
        }
        assert(self@.connections =~= Seq::new(
            before.connections.len(),
            |i: int| moved_to_default(before.connections[i], id@, now@),
        ));
        Ok(())
    }

    /// Deletes a group. Its connections move to the default group.
    pub fn delete_group(&mut self, id: &str) -> (r: Result<(), AppError>)
        ensures
            exists|now: Seq<char>| #[trigger]
                error::changes_as(old(self)@, final(self)@, r, group_deleted(old(self)@, id@, now)),
    {
        let time = now();
        self.delete_group_at(id, time.as_str())
    }

    /// Copies a connection. The copy has no saved credential.
    pub fn copy_connection_at(
        &mut self,
        id: &str,
        new_id: String,
        now: String,
    ) -> (r: Result<ConnectionProfile, AppError>)
        ensures
            error::changes_as(
                old(self)@,
                final(self)@,
                r,
                connection_copied(old(self)@, id@, new_id@, now@),
            ),
    {
        let ghost before = self@;
        match index_of(&self.document.connections, id) {
            None => Err(AppError::asset_not_found("connection", id)),
            Some(at) => {
                let name = duplicate_name(
                    self.document.connections[at].name.as_str(),
                    &self.document.connections,
                );
                let mut copy = self.document.connections[at].duplicate();
                copy.id = new_id;
                copy.name = name;
                copy.credential_ref = None;
                copy.proxy = match copy.proxy {
                    Some(proxy) => Some(ProxyProfile { credential_ref: None, ..proxy }),
                    None => None,
                };
                copy.last_connected_at = None;
                copy.created_at = now.clone();
                copy.updated_at = now;
                let result = copy.duplicate();
                self.document.connections.push(copy);
                assert(self@.connections =~= before.connections.push(result@));
                Ok(result)
            },
        }
    }

    /// Copies a connection. The copy has no saved credential.
    pub fn copy_connection(&mut self, id: &str) -> (r: Result<ConnectionProfile, AppError>)
        ensures
            exists|new_id: Seq<char>, now: Seq<char>|
                outside::is_id_text(new_id) && #[trigger] error::changes_as(
                    old(self)@,
                    final(self)@,
                    r,
                    connection_copied(old(self)@, id@, new_id, now),
                ),
    {
        let copy_id = new_id();
        let time = now();
        self.copy_connection_at(id, copy_id, time)
    }

    /// Notes that a connection was used.
    pub fn mark_connected_at(&mut self, id: &str, now: String) -> (r: Result<(), AppError>)
        ensures
            error::changes_as(old(self)@, final(self)@, r, connection_used(old(self)@, id@, now@)),
    {
        let ghost before = self@;
        match index_of(&self.document.connections, id) {
            None => Err(AppError::asset_not_found("connection", id)),
            Some(at) => {
                let mut connection = self.document.connections[at].duplicate();
                connection.last_connected_at = Some(now);
                let ghost after = connection@;
                self.document.connections[at] = connection;
                assert(self@.connections =~= before.connections.update(at as int, after));
                Ok(())
            },
        }
    }

    /// Notes that a connection was used.
    pub fn mark_connected(&mut self, id: &str) -> (r: Result<(), AppError>)
        ensures
            exists|now: Seq<char>| #[trigger]
                error::changes_as(old(self)@, final(self)@, r, connection_used(old(self)@, id@, now)),
    {
        let time = now();
        self.mark_connected_at(id, time)
    }

    /// Puts a quick-connect target first among the recent ones, with its host
    /// masked.
    pub fn record_recent_target_at(&mut self, target: &str, now: String) -> (r: Result<(), AppError>)
        ensures
            error::changes_as(old(self)@, final(self)@, r, target_recorded(old(self)@, target@, now@)),
    {
        let ghost before = self@;
        let shown = match mask_target(target) {
            Ok(shown) => shown,
            Err(error) => {
                return Err(error);
            },
        };
        let ghost text = shown@;
        let mut targets: Vec<RecentTarget> = Vec::new();
        let mut i: usize = 0;
        assert(before.recent_targets.take(0) =~= Seq::empty());
        while i < self.document.recent_targets.len()
            invariant
                i <= before.recent_targets.len(),
                self@ == before,
                targets.deep_view() == other_targets(before.recent_targets.take(i as int), text),
            decreases before.recent_targets.len() - i,
        {
            let ghost done = targets.deep_view();
            proof {
                let part = before.recent_targets.take(i + 1);
                assert(part.drop_last() =~= before.recent_targets.take(i as int));
                assert(part.last() == self.document.recent_targets@[i as int]@);
            }
            if !same(self.document.recent_targets[i].display_target.as_str(), shown.as_str()) {
                let item = self.document.recent_targets[i].duplicate();
                let ghost view = item@;
                targets.push(item);
                assert(targets.deep_view() =~= done.push(view));
            }
            i = i + 1;
        }
        assert(before.recent_targets.take(i as int) =~= before.recent_targets);
        let ghost rest = targets.deep_view();
        let first = RecentTarget { display_target: shown, last_used_at: now };
        let ghost head = first@;
        targets.insert(0, first);
        assert(targets.deep_view() =~= seq![head] + rest);
        let ghost all = targets.deep_view();
        if targets.len() > MAX_RECENT_TARGETS {
            targets.truncate(MAX_RECENT_TARGETS);
            assert(targets.deep_view() =~= all.take(MAX_RECENT_TARGETS as int));
        }
        self.document.recent_targets = targets;
        Ok(())
    }

    /// Puts a quick-connect target first among the recent ones, with its host
    /// masked.
    pub fn record_recent_target(&mut self, target: &str) -> (r: Result<(), AppError>)
        ensures
            exists|now: Seq<char>| #[trigger]
                error::changes_as(old(self)@, final(self)@, r, target_recorded(old(self)@, target@, now)),
    {
        let time = now();
        self.record_recent_target_at(target, time)
    }

    /// Forgets the recent targets.
    pub fn clear_recent_targets(&mut self)
        ensures
            final(self)@ == (AssetDocumentView { recent_targets: Seq::empty(), ..old(self)@ }),
    {
        self.document.recent_targets.clear();
        assert(self@.recent_targets =~= Seq::empty());
    }

    /// Creates a tunnel, or changes the one whose id is given, once it was
    /// checked.
    pub fn save_tunnel_at(
        &mut self,
        request: SaveTunnelRequest,
        loopback: bool,
        new_id: String,
        now: String,
    ) -> (r: Result<TunnelProfile, AppError>)
        ensures
            error::changes_as(
                old(self)@,
                final(self)@,
                r,
                tunnel_saved(old(self)@, request@, loopback, new_id@, now@),
            ),
    {
        let ghost before = self@;
        validate_tunnel_at(&request, loopback)?;
        if index_of(&self.document.connections, request.connection_id.as_str()).is_none() {
            return Err(AppError::asset_not_found("connection", request.connection_id.as_str()));
        }
        let known = request.id.is_some();
        let id = match clone_text(&request.id) {
            Some(id) => id,
            None => new_id,
        };
        let found = index_of(&self.document.tunnels, id.as_str());
        if known && found.is_none() {
            return Err(AppError::asset_not_found("tunnel", id.as_str()));
        }
        let created_at = match found {
            Some(at) => self.document.tunnels[at].created_at.clone(),
            None => now.clone(),
        };
        let tunnel = TunnelProfile {
            id: id.clone(),
            name: trimmed(request.name.as_str()),
            connection_id: request.connection_id,
            kind: request.kind,
            bind_host: trimmed(request.bind_host.as_str()),
            bind_port: request.bind_port,
            target_host: trimmed_value(&request.target_host),
            target_port: request.target_port,
            start_policy: request.start_policy,
            created_at,
            updated_at: now,
        };
        remove_id(&mut self.document.tunnels, id.as_str());
        let copy = tunnel.duplicate();
        self.document.tunnels.push(tunnel);
        assert(self@.tunnels =~= lists::others::<TunnelProfile>(before.tunnels, id@).push(copy@));
        Ok(copy)
    }

    /// Creates a tunnel, or changes the one whose id is given.
    pub fn save_tunnel(&mut self, request: SaveTunnelRequest) -> (r: Result<TunnelProfile, AppError>)
        ensures
            exists|new_id: Seq<char>, now: Seq<char>|
                outside::is_id_text(new_id) && #[trigger] error::changes_as(
                    old(self)@,
                    final(self)@,
                    r,
                    tunnel_saved(
                        old(self)@,
                        request@,
                        loopback_host(
                            text::trim(request.bind_host@),
                            outside::ip_octets_of(text::trim(request.bind_host@)),
                        ),
                        new_id,
                        now,
                    ),
                ),
    {
        let bind_host = trimmed(request.bind_host.as_str());
        let loopback = is_loopback_host(bind_host.as_str());
        let tunnel_id = new_id();
        let time = now();
        self.save_tunnel_at(request, loopback, tunnel_id, time)
    }

    /// Copies a tunnel.
    pub fn copy_tunnel_at(
        &mut self,
        id: &str,
        new_id: String,
        now: String,
    ) -> (r: Result<TunnelProfile, AppError>)
        ensures
            error::changes_as(old(self)@, final(self)@, r, tunnel_copied(old(self)@, id@, new_id@, now@)),
    {
        let ghost before = self@;
        match index_of(&self.document.tunnels, id) {
            None => Err(AppError::asset_not_found("tunnel", id)),
            Some(at) => {
                let mut copy = self.document.tunnels[at].duplicate();
                copy.id = new_id;
                copy.name = cat2(copy.name.as_str(), " - 副本");
                copy.bind_port = 0;
                copy.created_at = now.clone();
                copy.updated_at = now;
                let result = copy.duplicate();
                self.document.tunnels.push(copy);
                assert(self@.tunnels =~= before.tunnels.push(result@));
                Ok(result)
            },
        }
    }

    /// Copies a tunnel.
    pub fn copy_tunnel(&mut self, id: &str) -> (r: Result<TunnelProfile, AppError>)
        ensures
            exists|new_id: Seq<char>, now: Seq<char>|
                outside::is_id_text(new_id) && #[trigger] error::changes_as(
                    old(self)@,
                    final(self)@,
                    r,
                    tunnel_copied(old(self)@, id@, new_id, now),
                ),
    {
        let copy_id = new_id();
        let time = now();
        self.copy_tunnel_at(id, copy_id, time)
    }

    /// Deletes a tunnel.
    pub fn delete_tunnel(&mut self, id: &str) -> (r: Result<(), AppError>)
        ensures
            error::changes_as(old(self)@, final(self)@, r, tunnel_deleted(old(self)@, id@)),
    {
        if index_of(&self.document.tunnels, id).is_none() {
            return Err(AppError::asset_not_found("tunnel", id));
        }
        remove_id(&mut self.document.tunnels, id);
        Ok(())
    }

    /// The tunnel with this id.
    pub fn tunnel(&self, id: &str) -> (r: Result<TunnelProfile, AppError>)
        ensures
            error::ends_as(
                r,
                if lists::has_id::<TunnelProfile>(self@.tunnels, id@) {
                    Ok(self@.tunnels[lists::place_of::<TunnelProfile>(self@.tunnels, id@)])
                } else {
                    Err(error::asset_not_found_error("tunnel"@, id@))
                },
            ),
    {
        match index_of(&self.document.tunnels, id) {
            None => Err(AppError::asset_not_found("tunnel", id)),
            Some(at) => Ok(self.document.tunnels[at].duplicate()),
        }
    }

    /// The tunnels that start with a connection.
    pub fn automatic_tunnels(&self, connection_id: &str) -> (r: Vec<TunnelProfile>)
        ensures
            r.deep_view() == tunnels_to_start(self@.tunnels, connection_id@),
    {
        let tunnels = &self.document.tunnels;
        let ghost view = self@.tunnels;
        let mut r: Vec<TunnelProfile> = Vec::new();
        let mut i: usize = 0;
        assert(view.take(0) =~= Seq::empty());
        while i < tunnels.len()
            invariant
                i <= tunnels@.len(),
                r.deep_view() == tunnels_to_start(view.take(i as int), connection_id@),
            decreases tunnels@.len() - i,
        {
            let ghost done = r.deep_view();
            proof {
                assert(view.take(i + 1).drop_last() =~= view.take(i as int));
                assert(view.take(i + 1).last() == tunnels@[i as int]@);
            }
            if same(tunnels[i].connection_id.as_str(), connection_id) && tunnels[i].start_policy
                == TunnelStartPolicy::WithConnection {
                let tunnel = tunnels[i].duplicate();
                let ghost item = tunnel@;
                r.push(tunnel);
                assert(r.deep_view() =~= done.push(item));
            }
            i = i + 1;
        }
        assert(view.take(i as int) =~= view);
        r
    }
}

/// Whether an optional text comes before another: nothing comes first, then the
/// texts in their order.
pub open spec fn option_before(a: Option<Seq<char>>, b: Option<Seq<char>>) -> bool {
    match (a, b) {
        (None, Some(_)) => true,
        (Some(a), Some(b)) => text::text_before(a, b),
        _ => false,
    }
}

/// Whether a connection is listed before another: the one that was used later
/// comes first, and of two that were used at the same time the one whose name in
/// lower case comes first.
pub open spec fn used_later(
    a: (ConnectionProfileView, Seq<char>),
    b: (ConnectionProfileView, Seq<char>),
) -> bool {
    option_before(b.0.last_connected_at, a.0.last_connected_at) || (a.0.last_connected_at
        == b.0.last_connected_at && text::text_before(a.1, b.1))
}

/// Connections, each with its name in lower case.
pub open spec fn with_names(
    connections: Seq<ConnectionProfileView>,
    names: Seq<Seq<char>>,
) -> Seq<(ConnectionProfileView, Seq<char>)> {
    Seq::new(connections.len(), |i: int| (connections[i], names[i]))
}

/// Whether `listed` holds the connections in the order in which they are listed,
/// given their names in lower case.
pub open spec fn listed_in_order(
    connections: Seq<ConnectionProfileView>,
    names: Seq<Seq<char>>,
    listed: Seq<ConnectionProfileView>,
) -> bool {
    exists|listed_names: Seq<Seq<char>>|
        listed_names.len() == listed.len() && sort::stably_sorted(
            with_names(connections, names),
            #[trigger] with_names(listed, listed_names),
            |a: (ConnectionProfileView, Seq<char>), b: (ConnectionProfileView, Seq<char>)|
                used_later(a, b),
        )
}

/// What decides where a connection is listed.
struct ListKey {
    used_at: Option<String>,
    name: String,
}

impl SortKey for ListKey {
    closed spec fn less(self, other: Self) -> bool {
        option_before(other.used_at.deep_view(), self.used_at.deep_view()) || (
        self.used_at.deep_view() == other.used_at.deep_view() && text::text_before(
            self.name@,
            other.name@,
        ))
    }

    proof fn less_asymmetric(a: Self, b: Self) {
        if option_before(b.used_at.deep_view(), a.used_at.deep_view()) {
            if b.used_at is Some {
                text::text_order_asymmetric(b.used_at->0@, a.used_at->0@);
            }
        } else {
            text::text_order_asymmetric(a.name@, b.name@);
        }
        if a.used_at is Some && b.used_at is Some && text::text_before(a.used_at->0@, b.used_at->0@) {
            text::text_order_asymmetric(a.used_at->0@, b.used_at->0@);
        }
    }

    proof fn less_splits(a: Self, b: Self, c: Self) {
        if option_before(b.used_at.deep_view(), a.used_at.deep_view()) {
            if b.used_at is Some && c.used_at is Some {
                text::text_order_splits(b.used_at->0@, a.used_at->0@, c.used_at->0@);
            }
        } else {
            text::text_order_splits(a.name@, b.name@, c.name@);
            if a.used_at is Some && c.used_at is Some {
                if !text::text_before(a.used_at->0@, c.used_at->0@) && !text::text_before(
                    c.used_at->0@,
                    a.used_at->0@,
                ) {
                    text::text_order_total(a.used_at->0@, c.used_at->0@);
                }
            }
        }
    }

    fn is_less(&self, other: &Self) -> (r: bool) {
        let later = match (&other.used_at, &self.used_at) {
            (None, Some(_)) => true,
            (Some(a), Some(b)) => comes_before(a.as_str(), b.as_str()),
            _ => false,
        };
        later || (same_option(&self.used_at, &other.used_at) && comes_before(
            self.name.as_str(),
            other.name.as_str(),
        ))
    }
}

/// The connections in the order in which they are listed, given their names in
/// lower case.
pub fn listed_connections(
    connections: &Vec<ConnectionProfile>,
    names: &Vec<String>,
) -> (r: Vec<ConnectionProfile>)
    requires
        names@.len() == connections@.len(),
    ensures
        listed_in_order(connections.deep_view(), names.deep_view(), r.deep_view()),
{
    let ghost view = connections.deep_view();
    let ghost lower_names = names.deep_view();
    let mut keys: Vec<ListKey> = Vec::new();
    let mut i: usize = 0;
    while i < connections.len()
        invariant
            i <= connections@.len(),
            keys@.len() == i,
            forall|j: int|
                0 <= j < i ==> (#[trigger] keys@[j]).used_at.deep_view() == view[j].last_connected_at
                    && keys@[j].name@ == lower_names[j],
        decreases connections@.len() - i,
    {
        let key = ListKey {
            used_at: clone_text(&connections[i].last_connected_at),
            name: names[i].clone(),
        };
        keys.push(key);
        i = i + 1;
    }
    let order = order_of(&keys);
    let mut r: Vec<ConnectionProfile> = Vec::new();
    let mut k: usize = 0;
    while k < order.len()
        invariant
            k <= order@.len(),
            r@.len() == k,
            forall|j: int| 0 <= j < k ==> (#[trigger] r@[j])@ == view[order@[j] as int],
        decreases order@.len() - k,
    {
        let at: usize = order[k];
        r.push(connections[at].duplicate());
        k = k + 1;
    }
    proof {
        let listed = r.deep_view();
        let listed_names = Seq::new(order@.len(), |j: int| lower_names[order@[j] as int]);
        let input = with_names(view, lower_names);
        let output = with_names(listed, listed_names);
        let less = |a: (ConnectionProfileView, Seq<char>), b: (ConnectionProfileView, Seq<char>)|
            used_later(a, b);
        assert forall|i: int, j: int|
            #![trigger keys@[i], keys@[j]]
            0 <= i < keys@.len() && 0 <= j < keys@.len() implies keys@[i].less(keys@[j]) == less(
            input[i],
            input[j],
        ) by {}
        assert forall|i: int| 0 <= i < order@.len() implies output[i] == input[
            #[trigger] order@[i] as int] by {
            assert(listed[i] == r@[i]@);
        }
        sort::lemma_order_sorts(keys@, order@, input, output, less);
    }
    r
}

/// The texts in lower case.
fn lowercase_all(connections: &Vec<ConnectionProfile>) -> (r: Vec<String>)
    ensures
        r@.len() == connections@.len(),
        r.deep_view() == lowercase_names(connections.deep_view()),
{
    let mut r: Vec<String> = Vec::new();
    let mut i: usize = 0;
    while i < connections.len()
        invariant
            i <= connections@.len(),
            r@.len() == i,
            forall|j: int|
                0 <= j < i ==> (#[trigger] r@[j])@ == outside::lowercase_text(connections@[j].name@),
        decreases connections@.len() - i,
    {
        r.push(lowercase(connections[i].name.as_str()));
        i = i + 1;
    }
    assert(r.deep_view() =~= lowercase_names(connections.deep_view()));
    r
}

/// The names of the connections in lower case.
pub open spec fn lowercase_names(connections: Seq<ConnectionProfileView>) -> Seq<Seq<char>> {
    Seq::new(connections.len(), |i: int| outside::lowercase_text(connections[i].name))
}

/// The saved data without what belongs to this user alone: no recent targets and
/// no references to saved credentials.
pub open spec fn for_export(document: AssetDocumentView) -> AssetDocumentView {
    AssetDocumentView {
        recent_targets: Seq::empty(),
        connections: Seq::new(
            document.connections.len(),
            |i: int| without_references(document.connections[i]),
        ),
        ..document
    }
}

/// A connection without its references to saved credentials.
pub open spec fn without_references(connection: ConnectionProfileView) -> ConnectionProfileView {
    ConnectionProfileView {
        credential_ref: None,
        proxy: proxy_without_reference(connection.proxy),
        ..connection
    }
}

/// A connection without its references to saved credentials.
pub fn strip_references(connection: ConnectionProfile) -> (r: ConnectionProfile)
    ensures
        r@ == without_references(connection@),
{
    let mut connection = connection;
    connection.credential_ref = None;
    connection.proxy = match connection.proxy {
        Some(proxy) => Some(ProxyProfile { credential_ref: None, ..proxy }),
        None => None,
    };
    connection
}

impl AssetStore {
    /// Everything that is saved, with the connections in the order in which they
    /// are listed.
    pub fn snapshot(&self) -> (r: ConnectionAssetSnapshot)
        ensures
            r@.schema_version == self@.schema_version,
            r@.default_group_id == DEFAULT_GROUP_ID@,
            r@.groups == self@.groups,
            r@.recent_targets == self@.recent_targets,
            r@.tunnels == self@.tunnels,
            listed_in_order(
                self@.connections,
                lowercase_names(self@.connections),
                r@.connections,
            ),
    {
        let names = lowercase_all(&self.document.connections);
        ConnectionAssetSnapshot {
            schema_version: self.document.schema_version,
            default_group_id: DEFAULT_GROUP_ID.to_owned(),
            groups: duplicate_list(&self.document.groups),
            connections: listed_connections(&self.document.connections, &names),
            recent_targets: duplicate_list(&self.document.recent_targets),
            tunnels: duplicate_list(&self.document.tunnels),
        }
    }

    /// What an export to `path` holds, and its summary.
    pub fn export_to(&self, path: &str) -> (r: (AssetDocument, AssetTransferSummary))
        ensures
            r.0@ == for_export(self@),
            r.1@ == (AssetTransferSummaryView {
                connections: self@.connections.len() as usize,
                groups: self@.groups.len() as usize,
                duplicate_names: 0,
                regenerated_ids: 0,
                path: path@,
            }),
            self@.connections.len() <= usize::MAX,
            self@.groups.len() <= usize::MAX,
    {
        let ghost view = self@.connections;
        let mut connections: Vec<ConnectionProfile> = Vec::new();
        let mut i: usize = 0;
        while i < self.document.connections.len()
            invariant
                i <= view.len(),
                connections@.len() == i,
                forall|j: int|
                    0 <= j < i ==> (#[trigger] connections@[j])@ == without_references(view[j]),
            decreases view.len() - i,
        {
            let connection = strip_references(self.document.connections[i].duplicate());
            connections.push(connection);
            i = i + 1;
        }
        let document = AssetDocument {
            schema_version: self.document.schema_version,
            groups: duplicate_list(&self.document.groups),
            connections,
            recent_targets: Vec::new(),
            tunnels: duplicate_list(&self.document.tunnels),
        };
        assert(document@.connections =~= for_export(self@).connections);
        assert(document@.recent_targets =~= Seq::empty());
        let summary = AssetTransferSummary {
            connections: self.document.connections.len(),
            groups: self.document.groups.len(),
            duplicate_names: 0,
            regenerated_ids: 0,
            path: path.to_owned(),
        };
        (document, summary)
    }
}

} // verus!
