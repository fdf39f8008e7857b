//! The way from a saved connection to a request that can be carried out: the
//! hosts on the way, their credentials and the keys that they must show.

#![verifier::loop_isolation(false)]

use crate::assets::AssetStore;
use crate::connections::{self, nonempty_text};
use crate::error::{self, AppError, ErrorView};
use crate::jump::{self, collect_route_profiles, connection_index};
use crate::known_hosts::{self, HostKeyRecord, HostKeyRecordView};
use crate::models::{
    AuthType, ConnectionProfile, ConnectionProfileView, ConnectionRequest, ConnectionRequestView,
    Duplicate, JumpHostRequest, JumpHostRequestView, KeepaliveSettings, KeepaliveSettingsView,
    ProxyRequest, ProxyRequestView, ProxyType, RouteRequest, RouteRequestView,
};
use crate::outside::{self, debug_text};
use crate::text::{self, cat2, cat3, cat4, cat5, clone_text, decimal_text, quoted, same};
use vstd::prelude::*;

verus! {

/// The saved connections with these ids.
pub open spec fn profiles_of(
    connections: Seq<ConnectionProfileView>,
    ids: Seq<Seq<char>>,
) -> Result<Seq<ConnectionProfileView>, ErrorView>
    decreases ids.len(),
{
    if ids.len() == 0 {
        Ok(Seq::empty())
    } else {
        match profiles_of(connections, ids.drop_last()) {
            Err(error) => Err(error),
            Ok(front) => match jump::find_connection(connections, ids.last()) {
                None => Err(error::asset_not_found_error("jump-host"@, ids.last())),
                Some(at) => Ok(front.push(connections[at])),
            },
        }
    }
}

/// The connections on the way to the one with this id, and then that one.
pub open spec fn route_profiles_of(
    connections: Seq<ConnectionProfileView>,
    id: Seq<char>,
) -> Result<Seq<ConnectionProfileView>, ErrorView> {
    match jump::find_connection(connections, id) {
        None => Err(error::asset_not_found_error("connection"@, id)),
        Some(at) => match jump::walk(connections, at, Seq::empty(), Seq::empty()) {
            Err(error) => Err(error),
            Ok(ids) => match profiles_of(connections, ids) {
                Err(error) => Err(error),
                Ok(front) => Ok(front.push(connections[at])),
            },
        },
    }
}

/// Whether a saved connection lacks the secret that it needs.
pub open spec fn secret_missing(profile: ConnectionProfileView, secret: Option<Seq<char>>) -> bool {
    secret is None && (profile.auth_type == AuthType::Password || profile.credential_ref is Some)
}

/// The text of an optional secret.
pub open spec fn secret_text(secret: Option<Seq<char>>) -> Seq<char> {
    match secret {
        Some(secret) => secret,
        None => Seq::empty(),
    }
}

/// The error for a saved connection whose secret is missing.
pub open spec fn missing_secret_error(profile: ConnectionProfileView, jump_host: bool) -> ErrorView {
    if jump_host {
        error::ssh_error(
            "JUMP-HOST-FAILED"@,
            "跳板“"@ + profile.name + "”缺少已保存凭据"@,
            "jump host "@ + profile.id + " has no available credential"@,
            true,
        )
    } else {
        error::credential_store_error(
            "CREDENTIAL-MISSING"@,
            "未找到已保存凭据，请重新输入"@,
            "credential reference is absent or missing from Windows Credential Manager"@,
            true,
        )
    }
}

/// The request that a saved connection stands for.
pub open spec fn request_for(
    profile: ConnectionProfileView,
    secret: Option<Seq<char>>,
    proxy_password: Option<Seq<char>>,
    jump_host: bool,
) -> Result<ConnectionRequestView, ErrorView> {
    if secret_missing(profile, secret) {
        Err(missing_secret_error(profile, jump_host))
    } else {
        Ok(
            ConnectionRequestView {
                name: profile.name,
                host: profile.host,
                port: profile.port,
                username: profile.username,
                auth_type: profile.auth_type,
                password: if profile.auth_type == AuthType::Password {
                    Some(secret_text(secret))
                } else {
                    None
                },
                private_key_path: profile.private_key_path,
                private_key_passphrase: if profile.auth_type == AuthType::PrivateKey {
                    connections::nonempty(Some(secret_text(secret)))
                } else {
                    None
                },
                agent_key_fingerprint: profile.agent_key_fingerprint,
                proxy: match profile.proxy {
                    Some(proxy) => Some(
                        ProxyRequestView {
                            proxy_type: proxy.proxy_type,
                            host: proxy.host,
                            port: proxy.port,
                            username: proxy.username,
                            password: proxy_password,
                        },
                    ),
                    None => None,
                },
                columns: 80,
                rows: 24,
                timeout_seconds: profile.timeout_seconds,
                keepalive_enabled: true,
                keepalive_seconds: 30,
            },
        )
    }
}

/// The request that a saved connection stands for.
pub fn request_from_profile(
    profile: &ConnectionProfile,
    secret: Option<String>,
    proxy_password: Option<String>,
    jump_host: bool,
) -> (r: Result<ConnectionRequest, AppError>)
    ensures
        error::ends_as(
            r,
            request_for(profile@, secret.deep_view(), proxy_password.deep_view(), jump_host),
        ),
{
    if secret.is_none() && (profile.auth_type == AuthType::Password
        || profile.credential_ref.is_some()) {
        return Err(
            if jump_host {
                AppError::ssh(
                    "JUMP-HOST-FAILED",
                    cat3("跳板“", profile.name.as_str(), "”缺少已保存凭据").as_str(),
                    cat3("jump host ", profile.id.as_str(), " has no available credential").as_str(),
                    true,
                )
            } else {
                AppError::credential(
                    "CREDENTIAL-MISSING",
                    "未找到已保存凭据，请重新输入",
                    "credential reference is absent or missing from Windows Credential Manager",
                    true,
                )
            },
        );
    }
    let text = match secret {
        Some(secret) => secret,
        None => String::new(),
    };
    assert(text@ =~= secret_text(secret.deep_view()));
    let password = if profile.auth_type == AuthType::Password {
        Some(text.clone())
    } else {
        None
    };
    let passphrase = if profile.auth_type == AuthType::PrivateKey {
        nonempty_text(&Some(text))
    } else {
        None
    };
    Ok(
        ConnectionRequest {
            name: profile.name.clone(),
            host: profile.host.clone(),
            port: profile.port,
            username: profile.username.clone(),
            auth_type: profile.auth_type,
            password,
            private_key_path: clone_text(&profile.private_key_path),
            private_key_passphrase: passphrase,
            agent_key_fingerprint: clone_text(&profile.agent_key_fingerprint),
            proxy: match &profile.proxy {
                Some(proxy) => Some(
                    ProxyRequest {
                        proxy_type: proxy.proxy_type,
                        host: proxy.host.clone(),
                        port: proxy.port,
                        username: clone_text(&proxy.username),
                        password: proxy_password,
                    },
                ),
                None => None,
            },
            columns: 80,
            rows: 24,
            timeout_seconds: profile.timeout_seconds,
            keepalive_enabled: true,
            keepalive_seconds: 30,
        },
    )
}

/// What the credential store answered for a connection: its secret and the
/// password of its proxy.
#[derive(Debug)]
pub struct CredentialAnswers {
    pub secret: Result<Option<String>, AppError>,
    pub proxy_password: Result<Option<String>, AppError>,
}

/// What a [`CredentialAnswers`] says.
#[verifier::ext_equal]
pub struct CredentialAnswersView {
    pub secret: Result<Option<Seq<char>>, ErrorView>,
    pub proxy_password: Result<Option<Seq<char>>, ErrorView>,
}

impl View for CredentialAnswers {
    type V = CredentialAnswersView;

    open spec fn view(&self) -> CredentialAnswersView {
        CredentialAnswersView {
            secret: connections::answer(self.secret),
            proxy_password: connections::answer(self.proxy_password),
        }
    }
}

impl DeepView for CredentialAnswers {
    type V = CredentialAnswersView;

    open spec fn deep_view(&self) -> CredentialAnswersView {
        self@
    }
}

/// The references behind which the secrets of a saved connection are looked up. A
/// secret that the user entered takes the place of the saved one.
pub fn credential_lookups(profile: &ConnectionProfile, entered: bool) -> (r: (
    Option<String>,
    Option<String>,
))
    ensures
        r.0.deep_view() == (if entered {
            None
        } else {
            profile@.credential_ref
        }),
        r.1.deep_view() == connections::proxy_reference_of(Some(profile@)),
{
    let secret = if entered {
        None
    } else {
        clone_text(&profile.credential_ref)
    };
    let proxy = match &profile.proxy {
        Some(proxy) => clone_text(&proxy.credential_ref),
        None => None,
    };
    (secret, proxy)
}

/// The requests for the connections from place `i` on. The last is the target;
/// a secret that the user entered for it takes the place of the saved one.
pub open spec fn requests_from(
    profiles: Seq<ConnectionProfileView>,
    entered: Option<Seq<char>>,
    answers: Seq<CredentialAnswersView>,
    i: int,
) -> Result<Seq<ConnectionRequestView>, ErrorView>
    decreases profiles.len() - i,
{
    if i < 0 || i >= profiles.len() {
        Ok(Seq::empty())
    } else {
        let last = i == profiles.len() - 1;
        let secret = if last && entered is Some {
            Ok(entered)
        } else {
            answers[i].secret
        };
        match (secret, answers[i].proxy_password) {
            (Err(error), _) => Err(error),
            (Ok(_), Err(error)) => Err(error),
            (Ok(secret), Ok(proxy_password)) => match request_for(
                profiles[i],
                secret,
                proxy_password,
                !last,
            ) {
                Err(error) => Err(error),
                Ok(request) => match requests_from(profiles, entered, answers, i + 1) {
                    Err(error) => Err(error),
                    Ok(rest) => Ok(seq![request] + rest),
                },
            },
        }
    }
}

/// The requests for a route, given the answers of the credential store for each
/// connection on it.
pub fn route_requests(
    profiles: &Vec<ConnectionProfile>,
    entered: Option<String>,
    answers: Vec<CredentialAnswers>,
) -> (r: Result<Vec<ConnectionRequest>, AppError>)
    requires
        answers@.len() == profiles@.len(),
    ensures
        error::ends_as(
            r,
            requests_from(profiles.deep_view(), entered.deep_view(), answers.deep_view(), 0),
        ),
{
    let ghost view = profiles.deep_view();
    let ghost given = answers.deep_view();
    let ghost wanted = requests_from(view, entered.deep_view(), given, 0);
    let mut route: Vec<ConnectionRequest> = Vec::new();
    let mut answers = answers;
    let mut i: usize = 0;
    assert(answers.deep_view() =~= given.skip(0));
    assert(route.deep_view() =~= Seq::empty());
    proof {
        if let Ok(rest) = wanted {
            assert(route.deep_view() + rest =~= rest);
        }
    }
    while i < profiles.len()
        invariant
            i <= profiles@.len(),
            answers.deep_view() == given.skip(i as int),
            match requests_from(view, entered.deep_view(), given, i as int) {
                Ok(rest) => wanted == Ok::<Seq<ConnectionRequestView>, ErrorView>(
                    route.deep_view() + rest,
                ),
                Err(error) => wanted == Err::<Seq<ConnectionRequestView>, ErrorView>(error),
            },
        decreases profiles@.len() - i,
    {
        let total: usize = profiles.len();
        let last = i + 1 == total;
        let ghost before = answers@;
        let found = answers.remove(0);
        proof {
            assert(before[0]@ == given[i as int]) by {
                assert(given.skip(i as int)[0] == given[i as int]);
            }
            assert forall|j: int| 0 <= j < answers@.len() implies answers.deep_view()[j] == given.skip(
                i + 1,
            )[j] by {
                assert(answers@[j] == before[j + 1]);
                assert(given.skip(i as int)[j + 1] == given.skip(i + 1)[j]);
            }
            assert(answers.deep_view() =~= given.skip(i + 1));
        }
        let secret = if last && entered.is_some() {
            clone_text(&entered)
        } else {
            match found.secret {
                Ok(secret) => secret,
                Err(error) => {
                    return Err(error);
                },
            }
        };
        let proxy_password = match found.proxy_password {
            Ok(password) => password,
            Err(error) => {
                return Err(error);
            },
        };
        let request = match request_from_profile(&profiles[i], secret, proxy_password, !last) {
            Ok(request) => request,
            Err(error) => {
                return Err(error);
            },
        };
        let ghost done = route.deep_view();
        let ghost one = request@;
        route.push(request);
        assert(route.deep_view() =~= done.push(one));
        proof {
            if let Ok(rest) = requests_from(view, entered.deep_view(), given, i + 1) {
                assert(done + (seq![one] + rest) =~= done.push(one) + rest);
            }
        }
        i = i + 1;
    }
    proof {
        assert(route.deep_view() + Seq::<ConnectionRequestView>::empty() =~= route.deep_view());
    }
    Ok(route)
}

impl AssetStore {
    /// The connections on the way to the one with this id, and then that one.
    pub fn route_profiles(&self, id: &str) -> (r: Result<Vec<ConnectionProfile>, AppError>)
        ensures
            error::ends_as(r, route_profiles_of(self@.connections, id@)),
            r matches Ok(profiles) ==> profiles@.len() > 0,
    {
        let connections = &self.document.connections;
        let ghost view = self@.connections;
        match connection_index(connections, id) {
            None => Err(AppError::asset_not_found("connection", id)),
            Some(at) => {
                let mut ids: Vec<String> = Vec::new();
                let mut visiting: Vec<String> = Vec::new();
                assert(ids.deep_view() =~= Seq::empty());
                assert(visiting.deep_view() =~= Seq::empty());
                match collect_route_profiles(connections, at, &mut visiting, &mut ids) {
                    Ok(()) => {},
                    Err(error) => {
                        return Err(error);
                    },
                }
                let ghost names = ids.deep_view();
                let mut profiles: Vec<ConnectionProfile> = Vec::new();
                let mut i: usize = 0;
                assert(names.take(0) =~= Seq::empty());
                assert(profiles.deep_view() =~= Seq::empty());
                while i < ids.len()
                    invariant
                        i <= names.len(),
                        profiles_of(view, names.take(i as int)) == Ok::<
                            Seq<ConnectionProfileView>,
                            ErrorView,
                        >(profiles.deep_view()),
                    decreases names.len() - i,
                {
                    proof {
                        assert(names.take(i + 1).drop_last() =~= names.take(i as int));
                        assert(names.take(i + 1).last() == ids@[i as int]@);
                    }
                    match connection_index(connections, ids[i].as_str()) {
                        None => {
                            proof {
                                lemma_profiles_fail(view, names, i + 1);
                            }
                            return Err(AppError::asset_not_found("jump-host", ids[i].as_str()));
                        },
                        Some(place) => {
                            let ghost done = profiles.deep_view();
                            profiles.push(connections[place].duplicate());
                            assert(profiles.deep_view() =~= done.push(view[place as int]));
                        },
                    }
                    i = i + 1;
                }
                assert(names.take(i as int) =~= names);
                let ghost done = profiles.deep_view();
                profiles.push(connections[at].duplicate());
                assert(profiles.deep_view() =~= done.push(view[at as int]));
                Ok(profiles)
            },
        }
    }

    /// The requests for the hosts on the way to a connection and for the
    /// connection itself, given the answers of the credential store.
    pub fn connection_route_requests(
        &self,
        id: &str,
        temporary_secret: Option<String>,
        answers: Vec<CredentialAnswers>,
    ) -> (r: Result<Vec<ConnectionRequest>, AppError>)
        requires
            route_profiles_of(self@.connections, id@) matches Ok(profiles) ==> answers@.len()
                == profiles.len(),
        ensures
            error::ends_as(
                r,
                match route_profiles_of(self@.connections, id@) {
                    Err(error) => Err(error),
                    Ok(profiles) => requests_from(
                        profiles,
                        temporary_secret.deep_view(),
                        answers.deep_view(),
                        0,
                    ),
                },
            ),
    {
        match self.route_profiles(id) {
            Ok(profiles) => route_requests(&profiles, temporary_secret, answers),
            Err(error) => Err(error),
        }
    }

    /// The request for a connection itself, given the answers of the credential
    /// store.
    pub fn connection_request(
        &self,
        id: &str,
        temporary_secret: Option<String>,
        answers: Vec<CredentialAnswers>,
    ) -> (r: Result<ConnectionRequest, AppError>)
        requires
            route_profiles_of(self@.connections, id@) matches Ok(profiles) ==> answers@.len()
                == profiles.len(),
        ensures
            error::ends_as(
                r,
                match route_profiles_of(self@.connections, id@) {
                    Err(error) => Err(error),
                    Ok(profiles) => match requests_from(
                        profiles,
                        temporary_secret.deep_view(),
                        answers.deep_view(),
                        0,
                    ) {
                        Err(error) => Err(error),
                        Ok(requests) => if requests.len() == 0 {
                            Err(error::asset_not_found_error("connection"@, id@))
                        } else {
                            Ok(requests.last())
                        },
                    },
                },
            ),
    {
        match self.connection_route_requests(id, temporary_secret, answers) {
            Err(error) => Err(error),
            Ok(requests) => {
                let ghost view = requests.deep_view();
                let mut requests = requests;
                let ghost all = requests@;
                match requests.pop() {
                    Some(request) => {
                        assert(request == all.last());
                        assert(view.last() == request@);
                        Ok(request)
                    },
                    None => Err(AppError::asset_not_found("connection", id)),
                }
            },
        }
    }
}

/// A connection that is not found stops the list.
proof fn lemma_profiles_fail(
    connections: Seq<ConnectionProfileView>,
    ids: Seq<Seq<char>>,
    n: int,
)
    requires
        0 <= n <= ids.len(),
        profiles_of(connections, ids.take(n)) is Err,
    ensures
        profiles_of(connections, ids) == profiles_of(connections, ids.take(n)),
    decreases ids.len(),
{
    if n == ids.len() {
        assert(ids.take(n) =~= ids);
    } else {
        assert(ids.drop_last().take(n) =~= ids.take(n));
        lemma_profiles_fail(connections, ids.drop_last(), n);
    }
}

/// Sets how a connection is kept alive.
pub open spec fn kept_alive(
    request: ConnectionRequestView,
    settings: Option<KeepaliveSettingsView>,
) -> ConnectionRequestView {
    match settings {
        Some(settings) => ConnectionRequestView {
            keepalive_enabled: settings.enabled,
            keepalive_seconds: settings.seconds,
            ..request
        },
        None => request,
    }
}

/// Sets how a connection is kept alive.
pub fn apply_keepalive(request: &mut ConnectionRequest, settings: &Option<KeepaliveSettings>)
    ensures
        final(request)@ == kept_alive(old(request)@, settings.deep_view()),
{
    if let Some(settings) = settings {
        request.keepalive_enabled = settings.enabled;
        request.keepalive_seconds = settings.seconds;
    }
}

/// The key that is trusted at a server: the one of the last record for it.
pub open spec fn trusted_fingerprint(
    records: Seq<HostKeyRecordView>,
    host: Seq<char>,
    port: u16,
) -> Option<Seq<char>>
    decreases records.len(),
{
    if records.len() == 0 {
        None
    } else if known_hosts::record_is_for(records.last(), host, port) {
        Some(records.last().fingerprint_sha256)
    } else {
        trusted_fingerprint(records.drop_last(), host, port)
    }
}

/// The key that is trusted at a server.
fn find_trusted(records: &Vec<HostKeyRecord>, host: &str, port: u16) -> (r: Option<String>)
    ensures
        r.deep_view() == trusted_fingerprint(records.deep_view(), host@, port),
{
    let ghost view = records.deep_view();
    let mut to: usize = records.len();
    assert(view.take(to as int) =~= view);
    while to > 0
        invariant
            to <= view.len(),
            trusted_fingerprint(view, host@, port) == trusted_fingerprint(
                view.take(to as int),
                host@,
                port,
            ),
        decreases to,
    {
        proof {
            assert(view.take(to as int).drop_last() =~= view.take(to - 1));
            assert(view.take(to as int).last() == records@[to - 1]@);
        }
        let record = &records[to - 1];
        if same(record.host.as_str(), host) && record.port == port {
            return Some(record.fingerprint_sha256.clone());
        }
        to = to - 1;
    }
    None
}

/// The error for a jump host whose key is not trusted yet.
pub open spec fn untrusted_jump_error(request: ConnectionRequestView) -> ErrorView {
    error::ssh_error(
        "JUMP-HOST-FAILED"@,
        "请先单独连接并信任跳板“"@ + request.name + "”的服务器指纹"@,
        "jump host "@ + request.host + ":"@ + text::decimal(request.port as nat)
            + " has no trusted host key"@,
        false,
    )
}

/// The first `n` of the requests as jump hosts, each with the key that it must
/// show.
pub open spec fn trusted_jumps(
    route: Seq<ConnectionRequestView>,
    records: Seq<HostKeyRecordView>,
    keepalive: Option<KeepaliveSettingsView>,
    n: int,
) -> Result<Seq<JumpHostRequestView>, ErrorView>
    decreases n,
{
    if n <= 0 || n > route.len() {
        Ok(Seq::empty())
    } else {
        match trusted_jumps(route, records, keepalive, n - 1) {
            Err(error) => Err(error),
            Ok(front) => {
                let request = route[n - 1];
                match trusted_fingerprint(records, request.host, request.port) {
                    None => Err(untrusted_jump_error(request)),
                    Some(expected_fingerprint) => Ok(
                        front.push(
                            JumpHostRequestView {
                                connection: kept_alive(request, keepalive),
                                expected_fingerprint,
                            },
                        ),
                    ),
                }
            },
        }
    }
}

/// The request for a route: its last connection is the target, and those before
/// it must show the keys that are trusted.
pub open spec fn prepared(
    route: Seq<ConnectionRequestView>,
    records: Seq<HostKeyRecordView>,
    keepalive: Option<KeepaliveSettingsView>,
    id: Seq<char>,
) -> Result<RouteRequestView, ErrorView> {
    if route.len() == 0 {
        Err(error::asset_not_found_error("connection"@, id))
    } else {
        match trusted_jumps(route, records, keepalive, route.len() - 1) {
            Err(error) => Err(error),
            Ok(jump_hosts) => Ok(
                RouteRequestView { target: kept_alive(route.last(), keepalive), jump_hosts },
            ),
        }
    }
}

/// A request that fails stays the failure of a longer route.
proof fn lemma_jumps_fail(
    route: Seq<ConnectionRequestView>,
    records: Seq<HostKeyRecordView>,
    keepalive: Option<KeepaliveSettingsView>,
    n: int,
    m: int,
)
    requires
        0 <= n <= m <= route.len(),
        trusted_jumps(route, records, keepalive, n) is Err,
    ensures
        trusted_jumps(route, records, keepalive, m) == trusted_jumps(route, records, keepalive, n),
    decreases m - n,
{
    if n < m {
        lemma_jumps_fail(route, records, keepalive, n, m - 1);
    }
}

/// The request for a route, given the keys that are trusted.
pub fn prepare_saved_connection(
    route: &Vec<ConnectionRequest>,
    records: &Vec<HostKeyRecord>,
    keepalive: &Option<KeepaliveSettings>,
    connection_id: &str,
) -> (r: Result<RouteRequest, AppError>)
    ensures
        error::ends_as(
            r,
            prepared(
                route.deep_view(),
                records.deep_view(),
                keepalive.deep_view(),
                connection_id@,
            ),
        ),
{
    let ghost view = route.deep_view();
    let ghost known = records.deep_view();
    let ghost alive = keepalive.deep_view();
    if route.len() == 0 {
        return Err(AppError::asset_not_found("connection", connection_id));
    }
    let count: usize = route.len() - 1;
    let mut jump_hosts: Vec<JumpHostRequest> = Vec::new();
    let mut i: usize = 0;
    assert(jump_hosts.deep_view() =~= Seq::empty());
    while i < count
        invariant
            i <= count,
            trusted_jumps(view, known, alive, i as int) == Ok::<
                Seq<JumpHostRequestView>,
                ErrorView,
            >(jump_hosts.deep_view()),
        decreases count - i,
    {
        let ghost done = jump_hosts.deep_view();
        let mut connection = route[i].duplicate();
        assert(connection@ == view[i as int]);
        apply_keepalive(&mut connection, keepalive);
        match find_trusted(records, connection.host.as_str(), connection.port) {
            None => {
                proof {
                    lemma_jumps_fail(view, known, alive, i + 1, count as int);
                }
                let mut details = cat4(
                    "jump host ",
                    connection.host.as_str(),
                    ":",
                    decimal_text(connection.port as u64).as_str(),
                );
                details.append(" has no trusted host key");
                return Err(
                    AppError::ssh(
                        "JUMP-HOST-FAILED",
                        cat3(
                            "请先单独连接并信任跳板“",
                            connection.name.as_str(),
                            "”的服务器指纹",
                        ).as_str(),
                        details.as_str(),
                        false,
                    ),
                );
            },
            Some(expected_fingerprint) => {
                let jump = JumpHostRequest { connection, expected_fingerprint };
                let ghost one = jump@;
                jump_hosts.push(jump);
                assert(jump_hosts.deep_view() =~= done.push(one));
            },
        }
        i = i + 1;
    }
    let mut target = route[count].duplicate();
    apply_keepalive(&mut target, keepalive);
    Ok(RouteRequest { target, jump_hosts })
}

/// The name of a way to log in, as it stands in the key of a pooled connection.
pub open spec fn auth_type_name(auth_type: AuthType) -> Seq<char> {
    match auth_type {
        AuthType::Password => "Password"@,
        AuthType::PrivateKey => "PrivateKey"@,
        AuthType::KeyboardInteractive => "KeyboardInteractive"@,
        AuthType::Agent => "Agent"@,
    }
}

/// The name of a proxy protocol, as it stands in the key of a pooled connection.
pub open spec fn proxy_type_name(proxy_type: ProxyType) -> Seq<char> {
    match proxy_type {
        ProxyType::Http => "Http"@,
        ProxyType::Socks5 => "Socks5"@,
    }
}

/// A proxy, as it stands in the key of a pooled connection: its fields but the
/// password. `host` and `username` are its texts as `Debug` shows them.
pub open spec fn proxy_key(
    proxy: ProxyRequestView,
    host: Seq<char>,
    username: Option<Seq<char>>,
) -> Seq<char> {
    "Some(("@ + proxy_type_name(proxy.proxy_type) + ", "@ + host + ", "@ + text::decimal(
        proxy.port as nat,
    ) + ", "@ + (match username {
        Some(username) => "Some("@ + username + ")"@,
        None => "None"@,
    }) + "))"@
}

/// A value that may be missing, as it stands at the end of the key of a pooled
/// connection: a label and the value in quotes, or nothing.
pub open spec fn labelled(label: Seq<char>, value: Option<Seq<char>>) -> Seq<char> {
    match value {
        Some(value) => label + text::quoted_text(value),
        None => Seq::empty(),
    }
}

/// Whether a connection is kept alive, as it stands in the key of a pooled
/// connection.
pub open spec fn flag_key(flag: bool) -> Seq<char> {
    if flag {
        "true"@
    } else {
        "false"@
    }
}

/// Whom a connection reaches, who logs in and how, over which proxy, and how it is
/// kept alive, as they stand in the key of a pooled connection; `proxy` is the text
/// for the proxy.
pub open spec fn settings_key(request: ConnectionRequestView, proxy: Seq<char>) -> Seq<char> {
    ":"@ + request.host + ":"@ + text::decimal(request.port as nat) + ":"@ + request.username + ":"@
        + auth_type_name(request.auth_type) + ":"@ + proxy + ":"@ + flag_key(
        request.keepalive_enabled,
    ) + ":"@ + text::decimal(request.keepalive_seconds as nat)
}

/// With what the user logs in, as it stands in the key of a pooled connection, each part
/// where it is there.
pub open spec fn context_key(request: ConnectionRequestView) -> Seq<char> {
    labelled(":private-key="@, request.private_key_path) + labelled(
        ":agent-key="@,
        request.agent_key_fingerprint,
    )
}

/// A connection, as it stands in the key of a pooled connection; `proxy` is the text
/// for its proxy.
pub open spec fn connection_key(request: ConnectionRequestView, proxy: Seq<char>) -> Seq<char> {
    settings_key(request, proxy) + context_key(request)
}

/// The text for the proxy of a connection in the key of a pooled connection.
pub open spec fn proxy_text(request: ConnectionRequestView) -> Seq<char> {
    match request.proxy {
        Some(proxy) => proxy_key(
            proxy,
            outside::debug_text_of(proxy.host),
            match proxy.username {
                Some(username) => Some(outside::debug_text_of(username)),
                None => None,
            },
        ),
        None => "None"@,
    }
}

/// A jump host, as it stands in the key of a pooled connection.
pub open spec fn jump_key(jump: JumpHostRequestView) -> Seq<char> {
    connection_key(jump.connection, proxy_text(jump.connection)) + ":host-key="@
        + jump.expected_fingerprint
}

/// The jump hosts, as they stand in the key of a pooled connection.
pub open spec fn jumps_key(jumps: Seq<JumpHostRequestView>) -> Seq<char>
    decreases jumps.len(),
{
    if jumps.len() == 0 {
        Seq::empty()
    } else {
        jumps_key(jumps.drop_last()) + jump_key(jumps.last())
    }
}

/// The key under which a connection to a saved target is shared: who is connected
/// to whom, over what, how it logs in and which keys the servers must show, but no
/// secret.
pub open spec fn pool_key(
    id: Seq<char>,
    request: RouteRequestView,
    fingerprint: Seq<char>,
) -> Seq<char> {
    "saved:"@ + id + ":target-key="@ + fingerprint + jumps_key(request.jump_hosts) + connection_key(
        request.target,
        proxy_text(request.target),
    )
}

/// The text for a proxy, given its texts as `Debug` shows them.
pub fn proxy_key_text(proxy: &ProxyRequest, host: &str, username: &Option<String>) -> (r: String)
    ensures
        r@ == proxy_key(proxy@, host@, username.deep_view()),
{
    let kind = match proxy.proxy_type {
        ProxyType::Http => "Http",
        ProxyType::Socks5 => "Socks5",
    };
    let mut r = cat5("Some((", kind, ", ", host, ", ");
    r.append(decimal_text(proxy.port as u64).as_str());
    r.append(", ");
    match username {
        Some(username) => {
            let text = cat3("Some(", username.as_str(), ")");
            r.append(text.as_str());
        },
        None => {
            r.append("None");
        },
    }
    r.append("))");
    r
}

/// Adds a value in quotes behind a label to the key of a pooled connection, where it is
/// there.
fn append_labelled(key: &mut String, label: &str, value: &Option<String>)
    ensures
        final(key)@ == old(key)@ + labelled(label@, value.deep_view()),
{
    match value {
        Some(value) => {
            let text = cat2(label, quoted(value.as_str()).as_str());
            key.append(text.as_str());
        },
        None => {
            assert(key@ + Seq::<char>::empty() =~= key@);
        },
    }
}

/// Adds a connection to the key of a pooled connection, given the text for its
/// proxy.
pub fn append_connection_key(key: &mut String, request: &ConnectionRequest, proxy: &str)
    ensures
        final(key)@ == old(key)@ + connection_key(request@, proxy@),
{
    let kind = match request.auth_type {
        AuthType::Password => "Password",
        AuthType::PrivateKey => "PrivateKey",
        AuthType::KeyboardInteractive => "KeyboardInteractive",
        AuthType::Agent => "Agent",
    };
    let mut text = cat5(
        ":",
        request.host.as_str(),
        ":",
        decimal_text(request.port as u64).as_str(),
        ":",
    );
    text.append(request.username.as_str());
    text.append(":");
    text.append(kind);
    text.append(":");
    text.append(proxy);
    text.append(":");
    text.append(if request.keepalive_enabled {
        "true"
    } else {
        "false"
    });
    text.append(":");
    text.append(decimal_text(request.keepalive_seconds).as_str());
    let ghost settings = text@;
    append_labelled(&mut text, ":private-key=", &request.private_key_path);
    append_labelled(&mut text, ":agent-key=", &request.agent_key_fingerprint);
    assert(text@ =~= settings + context_key(request@));
    key.append(text.as_str());
}

/// Adds a connection to the key of a pooled connection.
pub fn append_connection_pool_key(key: &mut String, request: &ConnectionRequest)
    ensures
        final(key)@ == old(key)@ + connection_key(request@, proxy_text(request@)),
{
    let proxy = match &request.proxy {
        Some(proxy) => {
            let host = debug_text(proxy.host.as_str());
            let username = match &proxy.username {
                Some(username) => Some(debug_text(username.as_str())),
                None => None,
            };
            proxy_key_text(proxy, host.as_str(), &username)
        },
        None => "None".to_owned(),
    };
    append_connection_key(key, request, proxy.as_str());
}

/// The key under which a connection to a saved target is shared.
pub fn saved_pool_key(connection_id: &str, request: &RouteRequest, target_fingerprint: &str) -> (r:
    String)
    ensures
        r@ == pool_key(connection_id@, request@, target_fingerprint@),
{
    let mut key = cat4("saved:", connection_id, ":target-key=", target_fingerprint);
    let ghost head = key@;
    let ghost jumps = request@.jump_hosts;
    let mut i: usize = 0;
    assert(jumps.take(0) =~= Seq::empty());
    assert(key@ =~= head + jumps_key(jumps.take(0)));
    while i < request.jump_hosts.len()
        invariant
            i <= jumps.len(),
            key@ == head + jumps_key(jumps.take(i as int)),
        decreases jumps.len() - i,
    {
        let jump = &request.jump_hosts[i];
        proof {
            assert(jumps.take(i + 1).drop_last() =~= jumps.take(i as int));
            assert(jumps.take(i + 1).last() == jump@);
        }
        append_connection_pool_key(&mut key, &jump.connection);
        key.append(":host-key=");
        key.append(jump.expected_fingerprint.as_str());
        assert(key@ =~= head + jumps_key(jumps.take(i + 1)));
        i = i + 1;
    }
    assert(jumps.take(i as int) =~= jumps);
    append_connection_pool_key(&mut key, &request.target);
    key
}

/// The key under which a connection to a saved target is shared, or `None` where it
/// is not shared: one that was made with a secret that the user entered for it
/// alone is for no other request.
pub fn shared_key(
    connection_id: &str,
    request: &RouteRequest,
    target_fingerprint: &str,
    temporary: bool,
) -> (r: Option<String>)
    ensures
        r.deep_view() == (if temporary {
            None
        } else {
            Some(pool_key(connection_id@, request@, target_fingerprint@))
        }),
{
    if temporary {
        None
    } else {
        Some(saved_pool_key(connection_id, request, target_fingerprint))
    }
}

/// How long setting up a connection may take, in seconds.
pub open spec fn setup_seconds(request: ConnectionRequestView) -> int {
    if request.auth_type == AuthType::KeyboardInteractive {
        150
    } else {
        request.timeout_seconds as int
    }
}

/// How long setting up the jump hosts may take, in seconds.
pub open spec fn jumps_setup_seconds(jumps: Seq<JumpHostRequestView>) -> int
    decreases jumps.len(),
{
    if jumps.len() == 0 {
        0
    } else {
        jumps_setup_seconds(jumps.drop_last()) + setup_seconds(jumps.last().connection)
    }
}

/// How long setting up a connection may take, in seconds.
fn seconds_for(request: &ConnectionRequest) -> (r: u64)
    ensures
        r == setup_seconds(request@),
{
    if request.auth_type == AuthType::KeyboardInteractive {
        150
    } else {
        request.timeout_seconds
    }
}

/// How long setting up a route may take, in seconds, or `None` where that is more
/// than can be counted.
pub fn connection_setup_timeout(request: &RouteRequest) -> (r: Option<u64>)
    ensures
        ({
            let wanted = setup_seconds(request@.target) + jumps_setup_seconds(request@.jump_hosts);
            match r {
                Some(seconds) => seconds == wanted,
                None => wanted > u64::MAX,
            }
        }),
{
    let ghost jumps = request@.jump_hosts;
    let mut total: u64 = seconds_for(&request.target);
    let mut i: usize = 0;
    assert(jumps.take(0) =~= Seq::empty());
    while i < request.jump_hosts.len()
        invariant
            i <= jumps.len(),
            total == setup_seconds(request@.target) + jumps_setup_seconds(jumps.take(i as int)),
        decreases jumps.len() - i,
    {
        let jump = &request.jump_hosts[i];
        proof {
            assert(jumps.take(i + 1).drop_last() =~= jumps.take(i as int));
            assert(jumps.take(i + 1).last() == jump@);
        }
        match total.checked_add(seconds_for(&jump.connection)) {
            Some(sum) => {
                total = sum;
            },
            None => {
                proof {
                    lemma_setup_grows(jumps, i + 1);
                }
                return None;
            },
        }
        i = i + 1;
    }
    assert(jumps.take(i as int) =~= jumps);
    Some(total)
}

/// More jump hosts take no less time.
proof fn lemma_setup_grows(jumps: Seq<JumpHostRequestView>, n: int)
    requires
        0 <= n <= jumps.len(),
    ensures
        jumps_setup_seconds(jumps.take(n)) <= jumps_setup_seconds(jumps),
    decreases jumps.len(),
{
    if n == jumps.len() {
        assert(jumps.take(n) =~= jumps);
    } else {
        assert(jumps.drop_last().take(n) =~= jumps.take(n));
        lemma_setup_grows(jumps.drop_last(), n);
    }
}

/// The key of a pooled connection says nothing of a secret: it is the same
/// whatever the passwords are.
pub proof fn pool_key_hides_secrets(
    id: Seq<char>,
    request: RouteRequestView,
    fingerprint: Seq<char>,
    password: Option<Seq<char>>,
    passphrase: Option<Seq<char>>,
    proxy_password: Option<Seq<char>>,
)
    ensures
        pool_key(id, request, fingerprint) == pool_key(
            id,
            RouteRequestView {
                target: ConnectionRequestView {
                    password,
                    private_key_passphrase: passphrase,
                    proxy: match request.target.proxy {
                        Some(proxy) => Some(ProxyRequestView { password: proxy_password, ..proxy }),
                        None => None,
                    },
                    ..request.target
                },
                ..request
            },
            fingerprint,
        ),
{
}

/// Two keys for the same saved connection with different fingerprints of the same
/// length are different: a connection is not shared with one to another key.
pub proof fn pool_key_tells_fingerprints_apart(
    id: Seq<char>,
    request: RouteRequestView,
    other_request: RouteRequestView,
    fingerprint: Seq<char>,
    other: Seq<char>,
)
    requires
        fingerprint.len() == other.len(),
        fingerprint != other,
    ensures
        pool_key(id, request, fingerprint) != pool_key(id, other_request, other),
{
    let head = "saved:"@ + id + ":target-key="@;
    let a = pool_key(id, request, fingerprint);
    let b = pool_key(id, other_request, other);
    let n = head.len() as int;
    let m = fingerprint.len() as int;
    assert(a.subrange(n, n + m) =~= fingerprint);
    assert(b.subrange(n, n + m) =~= other);
}

/// Two keys for one request with different fingerprints are different.
pub proof fn pool_key_tells_target_keys_apart(
    id: Seq<char>,
    request: RouteRequestView,
    fingerprint: Seq<char>,
    other: Seq<char>,
)
    requires
        fingerprint != other,
    ensures
        pool_key(id, request, fingerprint) != pool_key(id, request, other),
{
    let before = "saved:"@ + id + ":target-key="@;
    let after = jumps_key(request.jump_hosts) + connection_key(
        request.target,
        proxy_text(request.target),
    );
    assert(pool_key(id, request, fingerprint) =~= before + fingerprint + after);
    assert(pool_key(id, request, other) =~= before + other + after);
    lemma_middle_apart(before, fingerprint, other, after);
}

/// Texts that differ in the middle alone are different.
proof fn lemma_middle_apart(before: Seq<char>, a: Seq<char>, b: Seq<char>, after: Seq<char>)
    requires
        a != b,
    ensures
        before + a + after != before + b + after,
{
    let x = before + a + after;
    let y = before + b + after;
    if x == y {
        assert(x.len() == y.len());
        let (n, m) = (before.len() as int, (before.len() + a.len()) as int);
        assert(x.subrange(n, m) =~= a);
        assert(y.subrange(n, m) =~= b);
    }
}

/// Whether two proxies differ in one field that decides how a connection is made, a
/// text in how `Debug` shows it.
pub open spec fn proxies_differ_in_one(a: ProxyRequestView, b: ProxyRequestView) -> bool {
    ||| a.proxy_type != b.proxy_type && b == (ProxyRequestView { proxy_type: b.proxy_type, ..a })
    ||| outside::debug_text_of(a.host) != outside::debug_text_of(b.host) && b == (
    ProxyRequestView { host: b.host, ..a })
    ||| a.port != b.port && b == (ProxyRequestView { port: b.port, ..a })
    ||| users_differ(a.username, b.username) && b == (ProxyRequestView {
        username: b.username,
        ..a
    })
}

/// Whether two users of a proxy differ: one is missing, or `Debug` shows them
/// differently.
pub open spec fn users_differ(a: Option<Seq<char>>, b: Option<Seq<char>>) -> bool {
    match (a, b) {
        (Some(x), Some(y)) => outside::debug_text_of(x) != outside::debug_text_of(y),
        (Some(_), None) => true,
        (None, Some(_)) => true,
        (None, None) => false,
    }
}

/// Whether two connections differ in one field that decides how a connection is
/// made: whom it reaches, who logs in and how, over which proxy, and how it is kept
/// alive.
pub open spec fn differ_in_one(a: ConnectionRequestView, b: ConnectionRequestView) -> bool {
    ||| a.host != b.host && b == (ConnectionRequestView { host: b.host, ..a })
    ||| a.port != b.port && b == (ConnectionRequestView { port: b.port, ..a })
    ||| a.username != b.username && b == (ConnectionRequestView { username: b.username, ..a })
    ||| a.auth_type != b.auth_type && b == (ConnectionRequestView { auth_type: b.auth_type, ..a })
    ||| a.private_key_path != b.private_key_path && b == (ConnectionRequestView {
        private_key_path: b.private_key_path,
        ..a
    })
    ||| a.agent_key_fingerprint != b.agent_key_fingerprint && b == (ConnectionRequestView {
        agent_key_fingerprint: b.agent_key_fingerprint,
        ..a
    })
    ||| a.keepalive_enabled != b.keepalive_enabled && b == (ConnectionRequestView {
        keepalive_enabled: b.keepalive_enabled,
        ..a
    })
    ||| a.keepalive_seconds != b.keepalive_seconds && b == (ConnectionRequestView {
        keepalive_seconds: b.keepalive_seconds,
        ..a
    })
    ||| b == (ConnectionRequestView { proxy: b.proxy, ..a }) && match (a.proxy, b.proxy) {
        (Some(x), Some(y)) => proxies_differ_in_one(x, y),
        (Some(_), None) => true,
        (None, Some(_)) => true,
        (None, None) => false,
    }
}

/// Values that may be missing are written differently.
proof fn lemma_labelled_apart(label: Seq<char>, a: Option<Seq<char>>, b: Option<Seq<char>>)
    requires
        a != b,
        label.len() > 0,
        label.last() != '\\',
    ensures
        labelled(label, a) != labelled(label, b),
{
    if let (Some(x), Some(y)) = (a, b) {
        if labelled(label, a) == labelled(label, b) {
            text::quoted_end_tells_apart(label, x, label, y);
        }
    } else {
        assert(labelled(label, a).len() != labelled(label, b).len());
    }
}

/// Ways to log in have different names.
proof fn lemma_auth_types_apart(a: AuthType, b: AuthType)
    requires
        a != b,
    ensures
        auth_type_name(a) != auth_type_name(b),
{
    reveal_strlit("Password");
    reveal_strlit("PrivateKey");
    reveal_strlit("KeyboardInteractive");
    reveal_strlit("Agent");
    assert(auth_type_name(a).len() != auth_type_name(b).len());
}

/// A proxy as it stands in a key, by its parts.
spec fn proxy_of(kind: Seq<char>, host: Seq<char>, port: Seq<char>, user: Seq<char>) -> Seq<char> {
    "Some(("@ + kind + ", "@ + host + ", "@ + port + ", "@ + user + "))"@
}

/// Proxies of different kinds are written differently.
proof fn lemma_kinds_apart(
    kind: Seq<char>,
    other: Seq<char>,
    host: Seq<char>,
    port: Seq<char>,
    user: Seq<char>,
)
    requires
        kind != other,
    ensures
        proxy_of(kind, host, port, user) != proxy_of(other, host, port, user),
{
    let after = ", "@ + host + ", "@ + port + ", "@ + user + "))"@;
    assert(proxy_of(kind, host, port, user) =~= "Some(("@ + kind + after);
    assert(proxy_of(other, host, port, user) =~= "Some(("@ + other + after);
    lemma_middle_apart("Some(("@, kind, other, after);
}

/// Proxies with different ports are written differently.
proof fn lemma_ports_apart(
    kind: Seq<char>,
    host: Seq<char>,
    port: Seq<char>,
    other: Seq<char>,
    user: Seq<char>,
)
    requires
        port != other,
    ensures
        proxy_of(kind, host, port, user) != proxy_of(kind, host, other, user),
{
    let before = "Some(("@ + kind + ", "@ + host + ", "@;
    let after = ", "@ + user + "))"@;
    assert(proxy_of(kind, host, port, user) =~= before + port + after);
    assert(proxy_of(kind, host, other, user) =~= before + other + after);
    lemma_middle_apart(before, port, other, after);
}

/// Proxies with different hosts are written differently.
proof fn lemma_hosts_apart(
    kind: Seq<char>,
    host: Seq<char>,
    other: Seq<char>,
    port: Seq<char>,
    user: Seq<char>,
)
    requires
        host != other,
    ensures
        proxy_of(kind, host, port, user) != proxy_of(kind, other, port, user),
{
    let before = "Some(("@ + kind + ", "@;
    let after = ", "@ + port + ", "@ + user + "))"@;
    assert(proxy_of(kind, host, port, user) =~= before + host + after);
    assert(proxy_of(kind, other, port, user) =~= before + other + after);
    lemma_middle_apart(before, host, other, after);
}

/// Proxies with different users are written differently.
proof fn lemma_users_apart(
    kind: Seq<char>,
    host: Seq<char>,
    port: Seq<char>,
    user: Seq<char>,
    other: Seq<char>,
)
    requires
        user != other,
    ensures
        proxy_of(kind, host, port, user) != proxy_of(kind, host, port, other),
{
    lemma_middle_apart(
        "Some(("@ + kind + ", "@ + host + ", "@ + port + ", "@,
        user,
        other,
        "))"@,
    );
}

/// The text for the user of a proxy.
spec fn user_part(username: Option<Seq<char>>) -> Seq<char> {
    match username {
        Some(username) => "Some("@ + outside::debug_text_of(username) + ")"@,
        None => "None"@,
    }
}

/// Users of a proxy that differ are written differently.
proof fn lemma_user_parts_apart(a: Option<Seq<char>>, b: Option<Seq<char>>)
    requires
        users_differ(a, b),
    ensures
        user_part(a) != user_part(b),
{
    reveal_strlit("Some(");
    reveal_strlit("None");
    if let (Some(x), Some(y)) = (a, b) {
        lemma_middle_apart(
            "Some("@,
            outside::debug_text_of(x),
            outside::debug_text_of(y),
            ")"@,
        );
    } else {
        assert(user_part(a)[0] != user_part(b)[0]);
    }
}

/// The text for a proxy by its parts.
proof fn lemma_proxy_parts(request: ConnectionRequestView)
    requires
        request.proxy is Some,
    ensures
        ({
            let proxy = request.proxy->0;
            proxy_text(request) == proxy_of(
                proxy_type_name(proxy.proxy_type),
                outside::debug_text_of(proxy.host),
                text::decimal(proxy.port as nat),
                user_part(proxy.username),
            )
        }),
{
}

/// Different proxies are written differently.
proof fn lemma_proxy_texts_apart(a: ConnectionRequestView, b: ConnectionRequestView)
    requires
        a.proxy matches Some(x) && b.proxy matches Some(y) && proxies_differ_in_one(x, y),
    ensures
        proxy_text(a) != proxy_text(b),
{
    let (x, y) = (a.proxy->0, b.proxy->0);
    let kind = proxy_type_name(x.proxy_type);
    let host = outside::debug_text_of(x.host);
    let port = text::decimal(x.port as nat);
    let user = user_part(x.username);
    lemma_proxy_parts(a);
    lemma_proxy_parts(b);
    if x.proxy_type != y.proxy_type {
        reveal_strlit("Http");
        reveal_strlit("Socks5");
        let other = proxy_type_name(y.proxy_type);
        assert(kind.len() != other.len());
        lemma_kinds_apart(kind, other, host, port, user);
    } else if x.port != y.port {
        text::decimal_tells_apart(x.port as nat, y.port as nat);
        lemma_ports_apart(kind, host, port, text::decimal(y.port as nat), user);
    } else if host != outside::debug_text_of(y.host) {
        lemma_hosts_apart(kind, host, outside::debug_text_of(y.host), port, user);
    } else {
        lemma_user_parts_apart(x.username, y.username);
        lemma_users_apart(kind, host, port, user, user_part(y.username));
    }
}

/// What the settings in a connection's key are made of.
spec fn key_parts(request: ConnectionRequestView) -> Seq<Seq<char>> {
    seq![
        request.host,
        text::decimal(request.port as nat),
        request.username,
        auth_type_name(request.auth_type),
        proxy_text(request),
        flag_key(request.keepalive_enabled),
        text::decimal(request.keepalive_seconds as nat),
    ]
}

/// Parts one after the other, each behind a colon.
spec fn behind_colons(parts: Seq<Seq<char>>) -> Seq<char>
    decreases parts.len(),
{
    if parts.len() == 0 {
        Seq::empty()
    } else {
        behind_colons(parts.drop_last()) + ":"@ + parts.last()
    }
}

/// Parts that differ in one place make different texts.
proof fn lemma_parts_apart(parts: Seq<Seq<char>>, at: int, other: Seq<char>)
    requires
        0 <= at < parts.len(),
        parts[at] != other,
    ensures
        behind_colons(parts) != behind_colons(parts.update(at, other)),
    decreases parts.len(),
{
    let changed = parts.update(at, other);
    let front = parts.drop_last();
    if at == parts.len() - 1 {
        assert(changed.drop_last() =~= front);
        let before = behind_colons(front) + ":"@;
        assert(behind_colons(parts) =~= before + parts[at] + Seq::empty());
        assert(behind_colons(changed) =~= before + other + Seq::empty());
        lemma_middle_apart(before, parts[at], other, Seq::empty());
    } else {
        lemma_parts_apart(front, at, other);
        assert(changed.drop_last() =~= front.update(at, other));
        let after = ":"@ + parts.last();
        let (x, y) = (behind_colons(front), behind_colons(front.update(at, other)));
        assert(behind_colons(parts) =~= Seq::empty() + x + after);
        assert(behind_colons(changed) =~= Seq::empty() + y + after);
        lemma_middle_apart(Seq::empty(), x, y, after);
    }
}

/// The settings in a connection's key are its parts behind colons.
proof fn lemma_key_parts(request: ConnectionRequestView)
    ensures
        settings_key(request, proxy_text(request)) == behind_colons(key_parts(request)),
{
    let parts = key_parts(request);
    reveal_with_fuel(behind_colons, 8);
    assert(parts.drop_last() =~= parts.take(6));
    assert(parts.take(6).drop_last() =~= parts.take(5));
    assert(parts.take(5).drop_last() =~= parts.take(4));
    assert(parts.take(4).drop_last() =~= parts.take(3));
    assert(parts.take(3).drop_last() =~= parts.take(2));
    assert(parts.take(2).drop_last() =~= parts.take(1));
    assert(parts.take(1).drop_last() =~= parts.take(0));
    assert(behind_colons(parts.take(1)) =~= ":"@ + request.host);
    assert(behind_colons(parts) =~= settings_key(request, proxy_text(request)));
}

/// Connections whose settings differ in one part, and that are otherwise the same, have
/// different keys.
proof fn lemma_settings_apart(a: ConnectionRequestView, b: ConnectionRequestView, at: int)
    requires
        0 <= at < 7,
        key_parts(b) == key_parts(a).update(at, key_parts(b)[at]),
        key_parts(a)[at] != key_parts(b)[at],
        context_key(a) == context_key(b),
    ensures
        connection_key(a, proxy_text(a)) != connection_key(b, proxy_text(b)),
{
    lemma_key_parts(a);
    lemma_key_parts(b);
    lemma_parts_apart(key_parts(a), at, key_parts(b)[at]);
    let (x, y) = (settings_key(a, proxy_text(a)), settings_key(b, proxy_text(b)));
    let after = context_key(a);
    assert(Seq::empty() + x + after =~= connection_key(a, proxy_text(a)));
    assert(Seq::empty() + y + after =~= connection_key(b, proxy_text(b)));
    lemma_middle_apart(Seq::empty(), x, y, after);
}

/// Connections that log in with different key files have different keys in the pool.
proof fn lemma_key_files_apart(a: ConnectionRequestView, b: ConnectionRequestView)
    requires
        a.private_key_path != b.private_key_path,
        b == (ConnectionRequestView { private_key_path: b.private_key_path, ..a }),
    ensures
        connection_key(a, proxy_text(a)) != connection_key(b, proxy_text(b)),
{
    reveal_strlit(":private-key=");
    let settings = settings_key(a, proxy_text(a));
    let after = labelled(":agent-key="@, a.agent_key_fingerprint);
    lemma_labelled_apart(":private-key="@, a.private_key_path, b.private_key_path);
    assert(connection_key(a, proxy_text(a)) =~= settings + labelled(
        ":private-key="@,
        a.private_key_path,
    ) + after);
    assert(connection_key(b, proxy_text(b)) =~= settings + labelled(
        ":private-key="@,
        b.private_key_path,
    ) + after);
    lemma_middle_apart(
        settings,
        labelled(":private-key="@, a.private_key_path),
        labelled(":private-key="@, b.private_key_path),
        after,
    );
}

/// Connections that log in with different keys of an agent have different keys in the
/// pool.
proof fn lemma_agent_keys_apart(a: ConnectionRequestView, b: ConnectionRequestView)
    requires
        a.agent_key_fingerprint != b.agent_key_fingerprint,
        b == (ConnectionRequestView { agent_key_fingerprint: b.agent_key_fingerprint, ..a }),
    ensures
        connection_key(a, proxy_text(a)) != connection_key(b, proxy_text(b)),
{
    reveal_strlit(":agent-key=");
    let before = settings_key(a, proxy_text(a)) + labelled(":private-key="@, a.private_key_path);
    let x = labelled(":agent-key="@, a.agent_key_fingerprint);
    let y = labelled(":agent-key="@, b.agent_key_fingerprint);
    lemma_labelled_apart(":agent-key="@, a.agent_key_fingerprint, b.agent_key_fingerprint);
    assert(connection_key(a, proxy_text(a)) =~= before + x + Seq::empty());
    assert(connection_key(b, proxy_text(b)) =~= before + y + Seq::empty());
    lemma_middle_apart(before, x, y, Seq::empty());
}

/// A connection with a proxy and one without have different keys.
proof fn lemma_proxy_tells_apart(a: ConnectionRequestView, b: ConnectionRequestView)
    requires
        b == (ConnectionRequestView { proxy: b.proxy, ..a }),
        a.proxy is Some,
        b.proxy is None,
    ensures
        connection_key(a, proxy_text(a)) != connection_key(b, proxy_text(b)),
{
    reveal_strlit("Some((");
    reveal_strlit("None");
    let before = ":"@ + a.host + ":"@ + text::decimal(a.port as nat) + ":"@ + a.username + ":"@
        + auth_type_name(a.auth_type) + ":"@;
    let n = before.len() as int;
    assert(proxy_text(a)[0] == 'S');
    assert(proxy_text(b)[0] == 'N');
    assert(connection_key(a, proxy_text(a))[n] == 'S');
    assert(connection_key(b, proxy_text(b))[n] == 'N');
}

/// Connections over different proxies have different keys.
proof fn lemma_proxies_apart(a: ConnectionRequestView, b: ConnectionRequestView)
    requires
        b == (ConnectionRequestView { proxy: b.proxy, ..a }),
        match (a.proxy, b.proxy) {
            (Some(x), Some(y)) => proxies_differ_in_one(x, y),
            (Some(_), None) => true,
            (None, Some(_)) => true,
            (None, None) => false,
        },
    ensures
        connection_key(a, proxy_text(a)) != connection_key(b, proxy_text(b)),
{
    match (a.proxy, b.proxy) {
        (Some(x), Some(y)) => {
            lemma_proxy_texts_apart(a, b);
            assert(key_parts(b) =~= key_parts(a).update(4, key_parts(b)[4]));
            lemma_settings_apart(a, b, 4);
        },
        (Some(_), None) => {
            lemma_proxy_tells_apart(a, b);
        },
        (None, Some(_)) => {
            lemma_proxy_tells_apart(b, a);
        },
        (None, None) => {},
    }
}

/// Connections that differ in a field that decides how they are made have
/// different keys.
proof fn lemma_connections_apart(a: ConnectionRequestView, b: ConnectionRequestView)
    requires
        differ_in_one(a, b),
    ensures
        connection_key(a, proxy_text(a)) != connection_key(b, proxy_text(b)),
{
    let (x, y) = (key_parts(a), key_parts(b));
    if a.private_key_path != b.private_key_path {
        lemma_key_files_apart(a, b);
    } else if a.agent_key_fingerprint != b.agent_key_fingerprint {
        lemma_agent_keys_apart(a, b);
    } else if a.proxy != b.proxy {
        lemma_proxies_apart(a, b);
    } else {
        let at: int = if a.host != b.host {
            0
        } else if a.port != b.port {
            text::decimal_tells_apart(a.port as nat, b.port as nat);
            1
        } else if a.username != b.username {
            2
        } else if a.auth_type != b.auth_type {
            lemma_auth_types_apart(a.auth_type, b.auth_type);
            3
        } else if a.keepalive_enabled != b.keepalive_enabled {
            reveal_strlit("true");
            reveal_strlit("false");
            assert(x[5].len() != y[5].len());
            5
        } else {
            text::decimal_tells_apart(a.keepalive_seconds as nat, b.keepalive_seconds as nat);
            6
        };
        assert(x[at] != y[at]);
        assert(y =~= x.update(at, y[at]));
        lemma_settings_apart(a, b, at);
    }
}

/// A connection to a target is not shared with one that is made otherwise: two keys
/// for one saved connection are different where the requests differ in one field of
/// the target that decides how the connection is made.
pub proof fn pool_key_tells_targets_apart(
    id: Seq<char>,
    request: RouteRequestView,
    target: ConnectionRequestView,
    fingerprint: Seq<char>,
)
    requires
        differ_in_one(request.target, target),
    ensures
        pool_key(id, request, fingerprint) != pool_key(
            id,
            RouteRequestView { target, ..request },
            fingerprint,
        ),
{
    lemma_connections_apart(request.target, target);
    let before = "saved:"@ + id + ":target-key="@ + fingerprint + jumps_key(request.jump_hosts);
    let a = connection_key(request.target, proxy_text(request.target));
    let b = connection_key(target, proxy_text(target));
    assert(before + a + Seq::empty() =~= before + a);
    assert(before + b + Seq::empty() =~= before + b);
    lemma_middle_apart(before, a, b, Seq::empty());
}

/// Jump hosts of which one has another text have another text.
proof fn lemma_jumps_apart(jumps: Seq<JumpHostRequestView>, at: int, other: JumpHostRequestView)
    requires
        0 <= at < jumps.len(),
        jump_key(jumps[at]) != jump_key(other),
    ensures
        jumps_key(jumps) != jumps_key(jumps.update(at, other)),
    decreases jumps.len(),
{
    let changed = jumps.update(at, other);
    let front = jumps.drop_last();
    if at == jumps.len() - 1 {
        assert(changed.drop_last() =~= front);
        let before = jumps_key(front);
        let (a, b) = (jump_key(jumps[at]), jump_key(other));
        assert(before + a + Seq::empty() =~= before + a);
        assert(before + b + Seq::empty() =~= before + b);
        lemma_middle_apart(before, a, b, Seq::empty());
    } else {
        lemma_jumps_apart(front, at, other);
        assert(changed.drop_last() =~= front.update(at, other));
        let after = jump_key(jumps.last());
        let (x, y) = (jumps_key(front), jumps_key(front.update(at, other)));
        assert(Seq::empty() + x + after =~= x + after);
        assert(Seq::empty() + y + after =~= y + after);
        lemma_middle_apart(Seq::empty(), x, y, after);
    }
}

/// A connection over jump hosts is not shared with one over others: two keys for
/// one saved connection are different where the requests differ in the fingerprint
/// of one jump host, or in one field of it that decides how it is reached.
pub proof fn pool_key_tells_jumps_apart(
    id: Seq<char>,
    request: RouteRequestView,
    at: int,
    jump: JumpHostRequestView,
    fingerprint: Seq<char>,
)
    requires
        0 <= at < request.jump_hosts.len(),
        ({
            let before = request.jump_hosts[at];
            ||| jump.connection == before.connection && jump.expected_fingerprint
                != before.expected_fingerprint
            ||| jump.expected_fingerprint == before.expected_fingerprint && differ_in_one(
                before.connection,
                jump.connection,
            )
        }),
    ensures
        pool_key(id, request, fingerprint) != pool_key(
            id,
            RouteRequestView { jump_hosts: request.jump_hosts.update(at, jump), ..request },
            fingerprint,
        ),
{
    let old_jump = request.jump_hosts[at];
    let (a, b) = (
        connection_key(old_jump.connection, proxy_text(old_jump.connection)),
        connection_key(jump.connection, proxy_text(jump.connection)),
    );
    if jump.connection == old_jump.connection {
        let before = a + ":host-key="@;
        let (x, y) = (old_jump.expected_fingerprint, jump.expected_fingerprint);
        assert(before + x + Seq::empty() =~= jump_key(old_jump));
        assert(before + y + Seq::empty() =~= jump_key(jump));
        lemma_middle_apart(before, x, y, Seq::empty());
    } else {
        lemma_connections_apart(old_jump.connection, jump.connection);
        let after = ":host-key="@ + jump.expected_fingerprint;
        assert(Seq::empty() + a + after =~= jump_key(old_jump));
        assert(Seq::empty() + b + after =~= jump_key(jump));
        lemma_middle_apart(Seq::empty(), a, b, after);
    }
    lemma_jumps_apart(request.jump_hosts, at, jump);
    let before = "saved:"@ + id + ":target-key="@ + fingerprint;
    let after = connection_key(request.target, proxy_text(request.target));
    lemma_middle_apart(
        before,
        jumps_key(request.jump_hosts),
        jumps_key(request.jump_hosts.update(at, jump)),
        after,
    );
}

/// A route that is ready has the key that is trusted for each of its jump hosts.
pub proof fn prepared_jumps_are_trusted(
    route: Seq<ConnectionRequestView>,
    records: Seq<HostKeyRecordView>,
    keepalive: Option<KeepaliveSettingsView>,
    n: int,
    i: int,
)
    requires
        0 <= i < n <= route.len(),
    ensures
        trusted_jumps(route, records, keepalive, n) matches Ok(jumps) ==> jumps.len() == n
            && trusted_fingerprint(records, route[i].host, route[i].port) == Some(
            jumps[i].expected_fingerprint,
        ) && jumps[i].connection == kept_alive(route[i], keepalive),
    decreases n,
{
    if n > 1 {
        if i < n - 1 {
            prepared_jumps_are_trusted(route, records, keepalive, n - 1, i);
        } else {
            prepared_jumps_are_trusted(route, records, keepalive, n - 1, 0);
        }
    }
    reveal_with_fuel(trusted_jumps, 2);
}

/// A saved connection is made as it was saved: to its server, as its user, in its way, over
/// its proxy, with the secret that was entered or is stored. It is refused if and only if it
/// needs a secret and there is none.
pub proof fn saved_connections_are_made_as_saved(
    profile: ConnectionProfileView,
    secret: Option<Seq<char>>,
    proxy_password: Option<Seq<char>>,
    jump_host: bool,
)
    ensures
        request_for(profile, secret, proxy_password, jump_host) is Err <==> secret is None && (
        profile.auth_type == AuthType::Password || profile.credential_ref is Some),
        match request_for(profile, secret, proxy_password, jump_host) {
            Err(error) => error.code == (if jump_host {
                "JUMP-HOST-FAILED"@
            } else {
                "CREDENTIAL-MISSING"@
            }) && error.retryable,
            Ok(request) => {
                &&& request.name == profile.name
                &&& request.host == profile.host
                &&& request.port == profile.port
                &&& request.username == profile.username
                &&& request.auth_type == profile.auth_type
                &&& request.private_key_path == profile.private_key_path
                &&& request.agent_key_fingerprint == profile.agent_key_fingerprint
                &&& request.timeout_seconds == profile.timeout_seconds
                &&& request.columns == 80
                &&& request.rows == 24
                &&& request.keepalive_enabled
                &&& request.keepalive_seconds == 30
                &&& profile.auth_type == AuthType::Password ==> request.password == secret
                &&& profile.auth_type != AuthType::Password ==> request.password is None
                &&& profile.auth_type == AuthType::PrivateKey ==> match secret {
                    Some(phrase) => if phrase.len() > 0 {
                        request.private_key_passphrase == Some(phrase)
                    } else {
                        request.private_key_passphrase is None
                    },
                    None => request.private_key_passphrase is None,
                }
                &&& profile.auth_type != AuthType::PrivateKey ==> request.private_key_passphrase
                    is None
                &&& match (profile.proxy, request.proxy) {
                    (Some(saved), Some(used)) => {
                        &&& used.proxy_type == saved.proxy_type
                        &&& used.host == saved.host
                        &&& used.port == saved.port
                        &&& used.username == saved.username
                        &&& used.password == proxy_password
                    },
                    (None, None) => true,
                    _ => false,
                }
            },
        },
{
}

/// The requests of a route are those of its connections in their order, each with its own
/// secret, and the last with the one that was entered where one was.
pub proof fn routes_use_the_secrets_of_their_connections(
    profiles: Seq<ConnectionProfileView>,
    entered: Option<Seq<char>>,
    answers: Seq<CredentialAnswersView>,
    from: int,
    i: int,
)
    requires
        0 <= from <= i < profiles.len(),
        answers.len() == profiles.len(),
        requests_from(profiles, entered, answers, from) is Ok,
    ensures
        ({
            let requests = requests_from(profiles, entered, answers, from)->Ok_0;
            let last = i == profiles.len() - 1;
            let secret = if last && entered is Some {
                Ok(entered)
            } else {
                answers[i].secret
            };
            &&& requests.len() == profiles.len() - from
            &&& secret is Ok
            &&& answers[i].proxy_password is Ok
            &&& Ok::<ConnectionRequestView, ErrorView>(requests[i - from]) == request_for(
                profiles[i],
                secret->Ok_0,
                answers[i].proxy_password->Ok_0,
                !last,
            )
        }),
    decreases profiles.len() - from,
{
    reveal_with_fuel(requests_from, 2);
    if from < i {
        routes_use_the_secrets_of_their_connections(profiles, entered, answers, from + 1, i);
    } else if from + 1 < profiles.len() {
        routes_use_the_secrets_of_their_connections(
            profiles,
            entered,
            answers,
            from + 1,
            from + 1,
        );
    }
}

/// Settings for keeping alive apply where there are any, and nothing else of a request
/// changes.
pub proof fn keepalive_settings_apply(
    request: ConnectionRequestView,
    settings: Option<KeepaliveSettingsView>,
)
    ensures
        ({
            let after = kept_alive(request, settings);
            &&& after == (ConnectionRequestView {
                keepalive_enabled: after.keepalive_enabled,
                keepalive_seconds: after.keepalive_seconds,
                ..request
            })
            &&& settings is None ==> after == request
            &&& settings matches Some(given) ==> after.keepalive_enabled == given.enabled
                && after.keepalive_seconds == given.seconds
        }),
{
}

/// The key that is trusted at a server is that of the last record for its host and port,
/// and there is none only where no record is for them.
pub proof fn trusted_keys_are_on_record(
    records: Seq<HostKeyRecordView>,
    host: Seq<char>,
    port: u16,
)
    ensures
        match trusted_fingerprint(records, host, port) {
            Some(key) => exists|i: int|
                0 <= i < records.len() && (#[trigger] records[i]).host == host && records[i].port
                    == port && records[i].fingerprint_sha256 == key && forall|j: int|
                    i < j < records.len() ==> (#[trigger] records[j]).host != host
                        || records[j].port != port,
            None => forall|i: int|
                0 <= i < records.len() ==> (#[trigger] records[i]).host != host || records[i].port
                    != port,
        },
    decreases records.len(),
{
    if records.len() > 0 {
        let front = records.drop_last();
        assert(records[records.len() - 1] == records.last());
        if !known_hosts::record_is_for(records.last(), host, port) {
            trusted_keys_are_on_record(front, host, port);
            match trusted_fingerprint(front, host, port) {
                Some(key) => {
                    let i = choose|i: int|
                        0 <= i < front.len() && (#[trigger] front[i]).host == host && front[i].port
                            == port && front[i].fingerprint_sha256 == key && forall|j: int|
                            i < j < front.len() ==> (#[trigger] front[j]).host != host
                                || front[j].port != port;
                    assert(records[i] == front[i]);
                    assert forall|j: int| i < j < records.len() implies (
                    #[trigger] records[j]).host != host || records[j].port != port by {
                        if j < front.len() {
                            assert(records[j] == front[j]);
                        }
                    }
                },
                None => {
                    assert forall|i: int| 0 <= i < records.len() implies (
                    #[trigger] records[i]).host != host || records[i].port != port by {
                        if i < front.len() {
                            assert(records[i] == front[i]);
                        }
                    }
                },
            }
        }
    }
}

/// A route that is ready leads over the connections of the saved route, all but the last as
/// jump hosts in their order, to the last as its target; it is refused only where there is
/// none or a jump host has no trusted key.
pub proof fn prepared_routes_lead_to_the_target(
    route: Seq<ConnectionRequestView>,
    records: Seq<HostKeyRecordView>,
    keepalive: Option<KeepaliveSettingsView>,
    id: Seq<char>,
)
    ensures
        match prepared(route, records, keepalive, id) {
            Ok(request) => {
                &&& route.len() > 0
                &&& request.target == kept_alive(route.last(), keepalive)
                &&& request.jump_hosts.len() == route.len() - 1
                &&& forall|i: int|
                    0 <= i < route.len() - 1 ==> (#[trigger] request.jump_hosts[i]).connection
                        == kept_alive(route[i], keepalive) && trusted_fingerprint(
                        records,
                        route[i].host,
                        route[i].port,
                    ) == Some(request.jump_hosts[i].expected_fingerprint)
            },
            Err(error) => {
                ||| route.len() == 0 && error.code == "ASSET-NOT-FOUND"@
                ||| route.len() > 0 && error.code == "JUMP-HOST-FAILED"@ && !error.retryable
                    && exists|i: int|
                    0 <= i < route.len() - 1 && trusted_fingerprint(
                        records,
                        (#[trigger] route[i]).host,
                        route[i].port,
                    ) is None
            },
        },
{
    if route.len() > 0 {
        let n = route.len() - 1;
        lemma_trusted_jumps(route, records, keepalive, n);
        if let Ok(request) = prepared(route, records, keepalive, id) {
            assert forall|i: int| 0 <= i < n implies (
            #[trigger] request.jump_hosts[i]).connection == kept_alive(route[i], keepalive)
                && trusted_fingerprint(records, route[i].host, route[i].port) == Some(
                request.jump_hosts[i].expected_fingerprint,
            ) by {
                prepared_jumps_are_trusted(route, records, keepalive, n, i);
            }
        }
    }
}

/// The first jump hosts of a route are refused only where one has no trusted key.
proof fn lemma_trusted_jumps(
    route: Seq<ConnectionRequestView>,
    records: Seq<HostKeyRecordView>,
    keepalive: Option<KeepaliveSettingsView>,
    n: int,
)
    requires
        0 <= n <= route.len(),
    ensures
        match trusted_jumps(route, records, keepalive, n) {
            Ok(jumps) => jumps.len() == n,
            Err(error) => error.code == "JUMP-HOST-FAILED"@ && !error.retryable && exists|i: int|
                0 <= i < n && trusted_fingerprint(
                    records,
                    (#[trigger] route[i]).host,
                    route[i].port,
                ) is None,
        },
    decreases n,
{
    if n > 0 {
        lemma_trusted_jumps(route, records, keepalive, n - 1);
    }
}

/// A connection is given its own time to be set up, and 150 seconds where the user answers
/// questions; a route is given the times of all its connections.
pub proof fn routes_are_given_their_time(request: ConnectionRequestView, jumps: Seq<JumpHostRequestView>, jump: JumpHostRequestView)
    ensures
        setup_seconds(request) == if request.auth_type == AuthType::KeyboardInteractive {
            150
        } else {
            request.timeout_seconds as int
        },
        jumps_setup_seconds(Seq::empty()) == 0,
        jumps_setup_seconds(jumps.push(jump)) == jumps_setup_seconds(jumps) + setup_seconds(
            jump.connection,
        ),
{
    assert(jumps.push(jump).drop_last() =~= jumps);
}

/// The connections of a route are those that its ids name, in their order, and the route
/// ends at the connection that is asked for. It is refused where one is not there.
pub proof fn saved_routes_end_at_their_connection(
    connections: Seq<ConnectionProfileView>,
    id: Seq<char>,
)
    ensures
        match route_profiles_of(connections, id) {
            Ok(profiles) => {
                &&& profiles.len() > 0
                &&& profiles.last().id == id
                &&& connections.contains(profiles.last())
                &&& jump::find_connection(connections, id) matches Some(at) && (jump::walk(
                    connections,
                    at,
                    Seq::empty(),
                    Seq::empty(),
                ) matches Ok(ids) && ids.len() == profiles.len() - 1 && forall|i: int|
                    0 <= i < ids.len() ==> (#[trigger] profiles[i]).id == ids[i])
            },
            Err(error) => jump::find_connection(connections, id) is None ==> error.code
                == "ASSET-NOT-FOUND"@,
        },
{
    jump::lemma_find(connections, id);
    if let Some(at) = jump::find_connection(connections, id) {
        if let Ok(ids) = jump::walk(connections, at, Seq::empty(), Seq::empty()) {
            lemma_profiles(connections, ids);
            if let Ok(front) = profiles_of(connections, ids) {
                let profiles = front.push(connections[at]);
                assert(connections[at] == profiles.last());
                assert forall|i: int| 0 <= i < ids.len() implies (#[trigger] profiles[i]).id
                    == ids[i] by {
                    assert(profiles[i] == front[i]);
                }
            }
        }
    }
}

/// The connections that ids name have those ids.
proof fn lemma_profiles(connections: Seq<ConnectionProfileView>, ids: Seq<Seq<char>>)
    ensures
        profiles_of(connections, ids) matches Ok(profiles) ==> profiles.len() == ids.len()
            && forall|i: int| 0 <= i < ids.len() ==> (#[trigger] profiles[i]).id == ids[i],
    decreases ids.len(),
{
    if ids.len() > 0 {
        let front = ids.drop_last();
        lemma_profiles(connections, front);
        jump::lemma_find(connections, ids.last());
        if let Ok(profiles) = profiles_of(connections, ids) {
            let less = profiles_of(connections, front)->Ok_0;
            assert forall|i: int| 0 <= i < ids.len() implies (#[trigger] profiles[i]).id
                == ids[i] by {
                if i < front.len() {
                    assert(profiles[i] == less[i]);
                    assert(front[i] == ids[i]);
                }
            }
        }
    }
}

} // verus!
