//! Setting up one connection: how the server is reached, whether its key is the
//! one that was confirmed, and how the user logs in.

#![verifier::loop_isolation(false)]

use crate::error::{self, AppError, ErrorView};
use crate::known_hosts::{HostKeyIdentity, HostKeyIdentityView};
use crate::models::{
    AgentIdentityInfo, AgentIdentityInfoView, AuthType, AuthenticationPromptField,
    AuthenticationPromptFieldView, AuthenticationPromptPayload, AuthenticationPromptPayloadView,
    ConnectionRequest, ConnectionRequestView, Duplicate, ProxyRequest, ProxyRequestView,
    clone_bytes,
};
use crate::network::{self, Dial};
use crate::outside::{self, key_algorithm, key_fingerprint};
use crate::sort::{self, order_of};
use crate::ssh_errors::{
    self, captured_fingerprint, captured_identity, connection_refused, host_key_changed,
};
use crate::text::{self, cat2, cat3, cat5, clone_text, decimal_text, same, same_option};
use vstd::prelude::*;

verus! {

/// The number of rounds of questions that a server may ask.
pub const MAX_INTERACTIVE_ROUNDS: usize = 16;

/// The number of questions that a server may ask in one round.
pub const MAX_INTERACTIVE_PROMPTS: usize = 16;

/// The number of seconds that the user has for the questions of one round.
pub const INTERACTIVE_AUTH_SECONDS: u64 = 120;

// ---------------------------------------------------------------------------
// One connection
// ---------------------------------------------------------------------------

/// How a server is reached.
#[derive(Debug)]
pub enum Transport {
    /// Over a connection that stands already.
    Stream,
    /// Through a proxy.
    Proxy(ProxyRequest),
    /// Directly.
    Direct { host: String, port: u16 },
}

/// What a [`Transport`] says.
#[verifier::ext_equal]
pub enum TransportView {
    Stream,
    Proxy(ProxyRequestView),
    Direct { host: Seq<char>, port: u16 },
}

impl View for Transport {
    type V = TransportView;

    open spec fn view(&self) -> TransportView {
        match self {
            Transport::Stream => TransportView::Stream,
            Transport::Proxy(proxy) => TransportView::Proxy(proxy@),
            Transport::Direct { host, port } => TransportView::Direct { host: host@, port: *port },
        }
    }
}

/// How a server is reached.
pub open spec fn transport_of(request: ConnectionRequestView, over_stream: bool) -> TransportView {
    if over_stream {
        TransportView::Stream
    } else {
        match request.proxy {
            Some(proxy) => TransportView::Proxy(proxy),
            None => TransportView::Direct { host: request.host, port: request.port },
        }
    }
}

/// How a user logs in.
#[derive(Debug)]
pub enum LoginMethod {
    Password(String),
    PrivateKey { path: String, passphrase: Option<String> },
    Interactive,
    Agent { preferred: Option<String> },
}

/// What a [`LoginMethod`] says.
#[verifier::ext_equal]
pub enum LoginMethodView {
    Password(Seq<char>),
    PrivateKey { path: Seq<char>, passphrase: Option<Seq<char>> },
    Interactive,
    Agent { preferred: Option<Seq<char>> },
}

impl View for LoginMethod {
    type V = LoginMethodView;

    open spec fn view(&self) -> LoginMethodView {
        match self {
            LoginMethod::Password(password) => LoginMethodView::Password(password@),
            LoginMethod::PrivateKey { path, passphrase } => LoginMethodView::PrivateKey {
                path: path@,
                passphrase: passphrase.deep_view(),
            },
            LoginMethod::Interactive => LoginMethodView::Interactive,
            LoginMethod::Agent { preferred } => LoginMethodView::Agent {
                preferred: preferred.deep_view(),
            },
        }
    }
}

/// How a user logs in.
pub open spec fn method_of(request: ConnectionRequestView) -> LoginMethodView {
    match request.auth_type {
        AuthType::Password => LoginMethodView::Password(network::text_or_empty(request.password)),
        AuthType::PrivateKey => LoginMethodView::PrivateKey {
            path: network::text_or_empty(request.private_key_path),
            passphrase: request.private_key_passphrase,
        },
        AuthType::KeyboardInteractive => LoginMethodView::Interactive,
        AuthType::Agent => LoginMethodView::Agent { preferred: request.agent_key_fingerprint },
    }
}

/// A request once its login was taken out: the secret that was used is gone.
pub open spec fn without_login(request: ConnectionRequestView) -> ConnectionRequestView {
    match request.auth_type {
        AuthType::Password => ConnectionRequestView { password: None, ..request },
        AuthType::PrivateKey => ConnectionRequestView {
            private_key_path: None,
            private_key_passphrase: None,
            ..request
        },
        _ => request,
    }
}

/// How far setting up a connection has come.
#[verifier::ext_equal]
pub enum LoginStepView {
    /// The server is reached.
    Dial,
    /// The user logs in.
    Authenticate { identity: HostKeyIdentityView },
    /// The connection stands.
    Connected { identity: HostKeyIdentityView },
    /// It does not.
    Failed { error: ErrorView },
}

/// The step after the server was reached, or was not. `shown` is the fingerprint of
/// the key that it showed, and `identity` what is known of that key. The user logs in
/// only where the key is the one that was confirmed.
pub open spec fn after_dial(
    expected: Seq<char>,
    failure: Option<ErrorView>,
    shown: Option<Seq<char>>,
    identity: Result<HostKeyIdentityView, ErrorView>,
) -> LoginStepView {
    match failure {
        Some(error) => LoginStepView::Failed {
            error: ssh_errors::refused_connection(shown, expected, error),
        },
        None => match identity {
            Ok(identity) => if shown == Some(expected) {
                LoginStepView::Authenticate { identity }
            } else {
                LoginStepView::Failed { error: ssh_errors::host_key_changed_error() }
            },
            Err(error) => LoginStepView::Failed {
                error: ssh_errors::refused_connection(shown, expected, error),
            },
        },
    }
}

/// What a server answered to a login: whether it was accepted, and the answer in words.
#[derive(Debug)]
pub struct LoginReply {
    pub accepted: bool,
    pub text: String,
}

/// What a [`LoginReply`] says.
#[verifier::ext_equal]
pub struct LoginReplyView {
    pub accepted: bool,
    pub text: Seq<char>,
}

impl View for LoginReply {
    type V = LoginReplyView;

    open spec fn view(&self) -> LoginReplyView {
        LoginReplyView {
            accepted: self.accepted,
            text: self.text@,
        }
    }
}

impl DeepView for LoginReply {
    type V = LoginReplyView;

    open spec fn deep_view(&self) -> LoginReplyView {
        self@
    }
}

impl Duplicate for LoginReply {
    fn duplicate(&self) -> (r: Self) {
        LoginReply {
            accepted: self.accepted,
            text: self.text.clone(),
        }
    }
}

impl Clone for LoginReply {
    fn clone(&self) -> (r: Self)
        ensures
            r@ == self@,
    {
        self.duplicate()
    }
}

/// The error for a login that was not accepted.
pub open spec fn login_rejected_error(text: Seq<char>) -> ErrorView {
    error::ssh_error(
        "AUTHENTICATION-FAILED"@,
        "认证失败，请检查用户名和凭据"@,
        "authentication rejected: "@ + text,
        true,
    )
}

/// The step after the server answered the login.
pub open spec fn after_login(
    identity: HostKeyIdentityView,
    reply: Result<LoginReplyView, ErrorView>,
) -> LoginStepView {
    match reply {
        Err(error) => LoginStepView::Failed { error },
        Ok(reply) => if reply.accepted {
            LoginStepView::Connected { identity }
        } else {
            LoginStepView::Failed { error: login_rejected_error(reply.text) }
        },
    }
}

/// How far setting up a connection has come.
#[derive(Debug)]
enum LoginStep {
    Dial,
    Authenticate { identity: HostKeyIdentity },
    Connected { identity: HostKeyIdentity },
    Failed { error: AppError },
}

/// Sets up one connection.
pub struct Login {
    request: ConnectionRequest,
    expected_fingerprint: String,
    over_stream: bool,
    step: LoginStep,
}

impl View for Login {
    type V = LoginStepView;

    closed spec fn view(&self) -> LoginStepView {
        match self.step {
            LoginStep::Dial => LoginStepView::Dial,
            LoginStep::Authenticate { identity } => LoginStepView::Authenticate {
                identity: identity@,
            },
            LoginStep::Connected { identity } => LoginStepView::Connected { identity: identity@ },
            LoginStep::Failed { error } => LoginStepView::Failed { error: error@ },
        }
    }
}

impl Login {
    /// Whom to reach and how to log in.
    pub closed spec fn request(self) -> ConnectionRequestView {
        self.request@
    }

    /// The fingerprint of the key that was confirmed.
    pub closed spec fn expected(self) -> Seq<char> {
        self.expected_fingerprint@
    }

    /// Whether a connection to the server stands already.
    pub closed spec fn over_stream(self) -> bool {
        self.over_stream
    }

    /// Starts to set up a connection.
    pub fn new(request: ConnectionRequest, expected_fingerprint: &str, over_stream: bool) -> (r: Self)
        ensures
            r.request() == request@,
            r.expected() == expected_fingerprint@,
            r.over_stream() == over_stream,
            r@ == LoginStepView::Dial,
    {
        Login {
            request,
            expected_fingerprint: expected_fingerprint.to_owned(),
            over_stream,
            step: LoginStep::Dial,
        }
    }

    /// How the server is reached.
    pub fn transport(&self) -> (r: Transport)
        ensures
            r@ == transport_of(self.request(), self.over_stream()),
    {
        if self.over_stream {
            return Transport::Stream;
        }
        match &self.request.proxy {
            Some(proxy) => Transport::Proxy(proxy.duplicate()),
            None => Transport::Direct { host: self.request.host.clone(), port: self.request.port },
        }
    }

    /// How often the connection is kept alive, in seconds.
    pub fn keepalive(&self) -> (r: Option<u64>)
        ensures
            r == (if self.request().keepalive_enabled {
                Some(self.request().keepalive_seconds)
            } else {
                None
            }),
    {
        if self.request.keepalive_enabled {
            Some(self.request.keepalive_seconds)
        } else {
            None
        }
    }

    /// Goes on after the server was reached, or was not, given the fingerprint of
    /// the key that it showed and what is known of that key.
    pub fn dialled_with(
        &mut self,
        failure: Option<AppError>,
        shown: &Option<String>,
        identity: Result<HostKeyIdentity, AppError>,
    )
        requires
            old(self)@ is Dial,
        ensures
            final(self).request() == old(self).request(),
            final(self).expected() == old(self).expected(),
            final(self).over_stream() == old(self).over_stream(),
            final(self)@ == after_dial(
                old(self).expected(),
                match failure {
                    Some(error) => Some(error@),
                    None => None,
                },
                shown.deep_view(),
                match identity {
                    Ok(identity) => Ok(identity@),
                    Err(error) => Err(error@),
                },
            ),
    {
        self.step = match failure {
            Some(error) => LoginStep::Failed {
                error: connection_refused(shown, self.expected_fingerprint.as_str(), error),
            },
            None => match identity {
                Ok(identity) => {
                    let confirmed = match shown {
                        Some(fingerprint) => same(
                            fingerprint.as_str(),
                            self.expected_fingerprint.as_str(),
                        ),
                        None => false,
                    };
                    if confirmed {
                        LoginStep::Authenticate { identity }
                    } else {
                        LoginStep::Failed { error: host_key_changed() }
                    }
                },
                Err(error) => LoginStep::Failed {
                    error: connection_refused(shown, self.expected_fingerprint.as_str(), error),
                },
            },
        };
    }

    /// Goes on after the server was reached, or was not, given the key that it
    /// showed.
    pub fn dialled(&mut self, failure: Option<AppError>, captured: &Option<Vec<u8>>)
        requires
            old(self)@ is Dial,
        ensures
            final(self).request() == old(self).request(),
            final(self).expected() == old(self).expected(),
            final(self).over_stream() == old(self).over_stream(),
            final(self)@ == after_dial(
                old(self).expected(),
                match failure {
                    Some(error) => Some(error@),
                    None => None,
                },
                ssh_errors::shown_fingerprint(captured.deep_view()),
                ssh_errors::shown_identity(ssh_errors::read_key(captured.deep_view())),
            ),
    {
        let shown = captured_fingerprint(captured);
        let identity = captured_identity(captured);
        self.dialled_with(failure, &shown, identity);
    }

    /// How the user logs in. The secret is taken out of the request.
    pub fn take_method(&mut self) -> (r: LoginMethod)
        requires
            old(self)@ is Authenticate,
        ensures
            final(self).request() == without_login(old(self).request()),
            final(self).expected() == old(self).expected(),
            final(self).over_stream() == old(self).over_stream(),
            final(self)@ == old(self)@,
            r@ == method_of(old(self).request()),
    {
        match self.request.auth_type {
            AuthType::Password => {
                let mut taken: Option<String> = None;
                core::mem::swap(&mut taken, &mut self.request.password);
                let password = match taken {
                    Some(password) => password,
                    None => String::new(),
                };
                assert(password@ =~= network::text_or_empty(old(self).request().password));
                LoginMethod::Password(password)
            },
            AuthType::PrivateKey => {
                let mut taken: Option<String> = None;
                core::mem::swap(&mut taken, &mut self.request.private_key_path);
                let mut passphrase: Option<String> = None;
                core::mem::swap(&mut passphrase, &mut self.request.private_key_passphrase);
                let path = match taken {
                    Some(path) => path,
                    None => String::new(),
                };
                assert(path@ =~= network::text_or_empty(old(self).request().private_key_path));
                LoginMethod::PrivateKey { path, passphrase }
            },
            AuthType::KeyboardInteractive => LoginMethod::Interactive,
            AuthType::Agent => LoginMethod::Agent {
                preferred: clone_text(&self.request.agent_key_fingerprint),
            },
        }
    }

    /// Goes on after the server answered the login.
    pub fn authenticated(&mut self, reply: Result<LoginReply, AppError>)
        requires
            old(self)@ is Authenticate,
        ensures
            final(self).request() == old(self).request(),
            final(self).expected() == old(self).expected(),
            final(self).over_stream() == old(self).over_stream(),
            final(self)@ == after_login(
                old(self)@->Authenticate_identity,
                match reply {
                    Ok(reply) => Ok(reply@),
                    Err(error) => Err(error@),
                },
            ),
    {
        let next = match &self.step {
            LoginStep::Authenticate { identity } => match reply {
                Err(error) => LoginStep::Failed { error },
                Ok(reply) => {
                    if reply.accepted {
                        LoginStep::Connected { identity: identity.duplicate() }
                    } else {
                        LoginStep::Failed {
                            error: AppError::ssh(
                                "AUTHENTICATION-FAILED",
                                "认证失败，请检查用户名和凭据",
                                cat2("authentication rejected: ", reply.text.as_str()).as_str(),
                                true,
                            ),
                        }
                    }
                },
            },
            _ => LoginStep::Dial,
        };
        self.step = next;
    }

    /// The error, where the connection failed.
    pub fn failure(&self) -> (r: Option<AppError>)
        ensures
            r.deep_view() == (match self@ {
                LoginStepView::Failed { error } => Some(error),
                _ => None,
            }),
    {
        match &self.step {
            LoginStep::Failed { error } => Some(error.duplicate()),
            _ => None,
        }
    }

    /// The identity of the server, once the connection stands.
    pub fn outcome(self) -> (r: Option<Result<HostKeyIdentity, AppError>>)
        ensures
            match r {
                None => self@ is Dial || self@ is Authenticate,
                Some(Ok(identity)) => self@ == (LoginStepView::Connected { identity: identity@ }),
                Some(Err(error)) => self@ == (LoginStepView::Failed { error: error@ }),
            },
    {
        match self.step {
            LoginStep::Connected { identity } => Some(Ok(identity)),
            LoginStep::Failed { error } => Some(Err(error)),
            _ => None,
        }
    }
}

/// A secret is used once: after the login was taken out of a request, taking it out
/// again gives no secret.
pub proof fn secrets_are_taken_once(request: ConnectionRequestView)
    ensures
        match method_of(without_login(request)) {
            LoginMethodView::Password(password) => password.len() == 0,
            LoginMethodView::PrivateKey { path, passphrase } => path.len() == 0
                && passphrase is None,
            _ => true,
        },
        without_login(without_login(request)) == without_login(request),
{
}

// ---------------------------------------------------------------------------
// Questions of a server
// ---------------------------------------------------------------------------

/// A question of a server.
#[derive(Debug)]
pub struct InteractivePrompt {
    pub text: String,
    pub echo: bool,
}

/// What a [`InteractivePrompt`] says.
#[verifier::ext_equal]
pub struct InteractivePromptView {
    pub text: Seq<char>,
    pub echo: bool,
}

impl View for InteractivePrompt {
    type V = InteractivePromptView;

    open spec fn view(&self) -> InteractivePromptView {
        InteractivePromptView {
            text: self.text@,
            echo: self.echo,
        }
    }
}

impl DeepView for InteractivePrompt {
    type V = InteractivePromptView;

    open spec fn deep_view(&self) -> InteractivePromptView {
        self@
    }
}

impl Duplicate for InteractivePrompt {
    fn duplicate(&self) -> (r: Self) {
        InteractivePrompt {
            text: self.text.clone(),
            echo: self.echo,
        }
    }
}

impl Clone for InteractivePrompt {
    fn clone(&self) -> (r: Self)
        ensures
            r@ == self@,
    {
        self.duplicate()
    }
}

/// What a server says while a user logs in by answering its questions.
#[derive(Debug)]
pub enum InteractiveReply {
    Success,
    Failure,
    Questions { name: String, instructions: String, prompts: Vec<InteractivePrompt> },
}

/// What a [`InteractiveReply`] says.
#[verifier::ext_equal]
pub enum InteractiveReplyView {
    Success,
    Failure,
    Questions { name: Seq<char>, instructions: Seq<char>, prompts: Seq<InteractivePromptView> },
}

impl View for InteractiveReply {
    type V = InteractiveReplyView;

    open spec fn view(&self) -> InteractiveReplyView {
        match self {
            InteractiveReply::Success => InteractiveReplyView::Success,
            InteractiveReply::Failure => InteractiveReplyView::Failure,
            InteractiveReply::Questions { name, instructions, prompts } => {
                InteractiveReplyView::Questions {
                    name: name@,
                    instructions: instructions@,
                    prompts: prompts.deep_view(),
                }
            },
        }
    }
}

/// What is done next.
#[derive(Debug)]
pub enum InteractiveStep {
    /// The user is logged in.
    Succeeded,
    /// The user is asked; the answers go by these ids.
    Ask(Vec<String>),
    /// The login failed.
    Failed(AppError),
}

/// What a [`InteractiveStep`] says.
#[verifier::ext_equal]
pub enum InteractiveStepView {
    Succeeded,
    Ask(Seq<Seq<char>>),
    Failed(ErrorView),
}

impl View for InteractiveStep {
    type V = InteractiveStepView;

    open spec fn view(&self) -> InteractiveStepView {
        match self {
            InteractiveStep::Succeeded => InteractiveStepView::Succeeded,
            InteractiveStep::Ask(ids) => InteractiveStepView::Ask(ids.deep_view()),
            InteractiveStep::Failed(error) => InteractiveStepView::Failed(error@),
        }
    }
}

/// The ids of the answers to so many questions.
pub open spec fn answer_ids(count: nat) -> Seq<Seq<char>> {
    Seq::new(count, |i: int| "answer-"@ + text::decimal(i as nat))
}

/// The ids of the answers to so many questions.
pub fn make_answer_ids(count: usize) -> (r: Vec<String>)
    ensures
        r.deep_view() == answer_ids(count as nat),
{
    let mut r: Vec<String> = Vec::new();
    let mut i: usize = 0;
    while i < count
        invariant
            i <= count,
            r@.len() == i,
            forall|j: int| 0 <= j < i ==> (#[trigger] r@[j])@ == "answer-"@ + text::decimal(j as nat),
        decreases count - i,
    {
        r.push(cat2("answer-", decimal_text(i as u64).as_str()));
        i = i + 1;
    }
    assert(r.deep_view() =~= answer_ids(count as nat));
    r
}

/// The error where no user can be asked.
pub open spec fn interactive_unavailable_error() -> ErrorView {
    error::ssh_error(
        "AUTH-INTERACTIVE-UNAVAILABLE"@,
        "当前环境无法显示服务器认证请求"@,
        "keyboard-interactive authentication requires an application event context"@,
        false,
    )
}

/// The error for a server that asks too often.
pub open spec fn too_many_rounds_error() -> ErrorView {
    error::ssh_error(
        "AUTH-INTERACTIVE-LIMIT"@,
        "服务器认证轮次过多，连接已停止"@,
        "keyboard-interactive authentication exceeded the round limit"@,
        false,
    )
}

/// What is done after the reply with this number.
pub open spec fn interactive_step(round: nat, reply: InteractiveReplyView) -> InteractiveStepView {
    if round >= MAX_INTERACTIVE_ROUNDS {
        InteractiveStepView::Failed(too_many_rounds_error())
    } else {
        match reply {
            InteractiveReplyView::Success => InteractiveStepView::Succeeded,
            InteractiveReplyView::Failure => InteractiveStepView::Failed(
                error::ssh_error(
                    "AUTH-INTERACTIVE-REJECTED"@,
                    "服务器拒绝了交互式认证"@,
                    "keyboard-interactive authentication was rejected"@,
                    true,
                ),
            ),
            InteractiveReplyView::Questions { prompts, .. } => if prompts.len()
                > MAX_INTERACTIVE_PROMPTS {
                InteractiveStepView::Failed(
                    error::ssh_error(
                        "AUTH-INTERACTIVE-LIMIT"@,
                        "服务器返回的认证问题过多"@,
                        "received "@ + text::decimal(prompts.len()) + " prompts in one round"@,
                        false,
                    ),
                )
            } else {
                InteractiveStepView::Ask(answer_ids(prompts.len()))
            },
        }
    }
}

/// A login by answering the questions of a server.
pub struct InteractiveLogin {
    rounds: usize,
}

impl View for InteractiveLogin {
    type V = nat;

    closed spec fn view(&self) -> nat {
        self.rounds as nat
    }
}

impl InteractiveLogin {
    /// Starts a login, where the user can be asked.
    pub fn new(can_ask: bool) -> (r: Result<Self, AppError>)
        ensures
            match r {
                Ok(login) => can_ask && login@ == 0,
                Err(error) => !can_ask && error@ == interactive_unavailable_error(),
            },
    {
        if !can_ask {
            return Err(
                AppError::ssh(
                    "AUTH-INTERACTIVE-UNAVAILABLE",
                    "当前环境无法显示服务器认证请求",
                    "keyboard-interactive authentication requires an application event context",
                    false,
                ),
            );
        }
        Ok(InteractiveLogin { rounds: 0 })
    }

    /// Goes on after a reply of the server.
    pub fn reply(&mut self, reply: &InteractiveReply) -> (r: InteractiveStep)
        requires
            old(self)@ <= MAX_INTERACTIVE_ROUNDS,
        ensures
            r@ == interactive_step(old(self)@, reply@),
            final(self)@ == (if old(self)@ < MAX_INTERACTIVE_ROUNDS {
                old(self)@ + 1
            } else {
                old(self)@
            }),
    {
        if self.rounds >= MAX_INTERACTIVE_ROUNDS {
            return InteractiveStep::Failed(
                AppError::ssh(
                    "AUTH-INTERACTIVE-LIMIT",
                    "服务器认证轮次过多，连接已停止",
                    "keyboard-interactive authentication exceeded the round limit",
                    false,
                ),
            );
        }
        self.rounds = self.rounds + 1;
        match reply {
            InteractiveReply::Success => InteractiveStep::Succeeded,
            InteractiveReply::Failure => InteractiveStep::Failed(
                AppError::ssh(
                    "AUTH-INTERACTIVE-REJECTED",
                    "服务器拒绝了交互式认证",
                    "keyboard-interactive authentication was rejected",
                    true,
                ),
            ),
            InteractiveReply::Questions { prompts, .. } => {
                let count: usize = prompts.len();
                if count > MAX_INTERACTIVE_PROMPTS {
                    return InteractiveStep::Failed(
                        AppError::ssh(
                            "AUTH-INTERACTIVE-LIMIT",
                            "服务器返回的认证问题过多",
                            cat3(
                                "received ",
                                decimal_text(count as u64).as_str(),
                                " prompts in one round",
                            ).as_str(),
                            false,
                        ),
                    );
                }
                InteractiveStep::Ask(make_answer_ids(count))
            },
        }
    }
}

/// The questions of a server with the ids of their answers.
pub open spec fn prompt_fields(prompts: Seq<InteractivePromptView>) -> Seq<
    AuthenticationPromptFieldView,
> {
    Seq::new(
        prompts.len(),
        |i: int|
            AuthenticationPromptFieldView {
                id: answer_ids(prompts.len())[i],
                text: prompts[i].text,
                echo: prompts[i].echo,
            },
    )
}

/// The questions of a server, as the user is asked.
pub fn prompt_payload(
    operation_id: &str,
    prompt_id: &str,
    request: &ConnectionRequest,
    name: &str,
    instructions: &str,
    prompts: &Vec<InteractivePrompt>,
) -> (r: AuthenticationPromptPayload)
    ensures
        r@ == (AuthenticationPromptPayloadView {
            operation_id: operation_id@,
            prompt_id: prompt_id@,
            connection_title: request@.name,
            target: request@.username + "@"@ + request@.host + ":"@ + text::decimal(request@.port as nat),
            name: name@,
            instructions: instructions@,
            prompts: prompt_fields(prompts.deep_view()),
        }),
{
    let ghost view = prompts.deep_view();
    let ids = make_answer_ids(prompts.len());
    assert(ids@.len() == ids.deep_view().len());
    let mut fields: Vec<AuthenticationPromptField> = Vec::new();
    let mut i: usize = 0;
    while i < prompts.len()
        invariant
            i <= prompts@.len(),
            fields@.len() == i,
            forall|j: int|
                0 <= j < i ==> (#[trigger] fields@[j])@ == (AuthenticationPromptFieldView {
                    id: ids.deep_view()[j],
                    text: view[j].text,
                    echo: view[j].echo,
                }),
        decreases prompts@.len() - i,
    {
        assert(view[i as int] == prompts@[i as int]@);
        assert(ids.deep_view()[i as int] == ids@[i as int]@);
        fields.push(
            AuthenticationPromptField {
                id: ids[i].clone(),
                text: prompts[i].text.clone(),
                echo: prompts[i].echo,
            },
        );
        i = i + 1;
    }
    assert(fields.deep_view() =~= prompt_fields(view));
    AuthenticationPromptPayload {
        operation_id: operation_id.to_owned(),
        prompt_id: prompt_id.to_owned(),
        connection_title: request.name.clone(),
        target: cat5(
            request.username.as_str(),
            "@",
            request.host.as_str(),
            ":",
            decimal_text(request.port as u64).as_str(),
        ),
        name: name.to_owned(),
        instructions: instructions.to_owned(),
        prompts: fields,
    }
}

/// The error for questions that the user did not answer in time.
pub fn interactive_timeout() -> (r: AppError)
    ensures
        r@ == error::ssh_error(
            "AUTH-INTERACTIVE-TIMEOUT"@,
            "等待认证输入超时，请重新连接"@,
            "keyboard-interactive prompt timed out"@,
            true,
        ),
{
    AppError::ssh(
        "AUTH-INTERACTIVE-TIMEOUT",
        "等待认证输入超时，请重新连接",
        "keyboard-interactive prompt timed out",
        true,
    )
}

/// The questions that the user is asked go by the ids that the answers are checked
/// against.
pub proof fn answers_go_by_the_questions(round: nat, reply: InteractiveReplyView, i: int)
    requires
        interactive_step(round, reply) is Ask,
        reply is Questions,
        0 <= i < reply->prompts.len(),
    ensures
        interactive_step(round, reply)->Ask_0.len() == prompt_fields(reply->prompts).len(),
        interactive_step(round, reply)->Ask_0[i] == prompt_fields(reply->prompts)[i].id,
{
}

// ---------------------------------------------------------------------------
// Keys of an agent
// ---------------------------------------------------------------------------

/// A key that the agent holds, in its wire form.
#[derive(Debug)]
pub struct AgentKey {
    pub key: Vec<u8>,
    pub comment: String,
}

/// What a [`AgentKey`] says.
#[verifier::ext_equal]
pub struct AgentKeyView {
    pub key: Seq<u8>,
    pub comment: Seq<char>,
}

impl View for AgentKey {
    type V = AgentKeyView;

    open spec fn view(&self) -> AgentKeyView {
        AgentKeyView {
            key: self.key@,
            comment: self.comment@,
        }
    }
}

impl DeepView for AgentKey {
    type V = AgentKeyView;

    open spec fn deep_view(&self) -> AgentKeyView {
        self@
    }
}

impl Duplicate for AgentKey {
    fn duplicate(&self) -> (r: Self) {
        AgentKey {
            key: clone_bytes(&self.key),
            comment: self.comment.clone(),
        }
    }
}

impl Clone for AgentKey {
    fn clone(&self) -> (r: Self)
        ensures
            r@ == self@,
    {
        self.duplicate()
    }
}

/// What an agent holds.
#[derive(Debug)]
pub enum AgentIdentity {
    PublicKey(AgentKey),
    Certificate,
}

/// What a [`AgentIdentity`] says.
#[verifier::ext_equal]
pub enum AgentIdentityView {
    PublicKey(AgentKeyView),
    Certificate,
}

impl View for AgentIdentity {
    type V = AgentIdentityView;

    open spec fn view(&self) -> AgentIdentityView {
        match self {
            AgentIdentity::PublicKey(key) => AgentIdentityView::PublicKey(key@),
            AgentIdentity::Certificate => AgentIdentityView::Certificate,
        }
    }
}

impl DeepView for AgentIdentity {
    type V = AgentIdentityView;

    open spec fn deep_view(&self) -> AgentIdentityView {
        self@
    }
}

/// The plain keys that an agent holds, in their order.
pub open spec fn plain_keys_of(identities: Seq<AgentIdentityView>) -> Seq<AgentKeyView>
    decreases identities.len(),
{
    if identities.len() == 0 {
        Seq::empty()
    } else {
        let front = plain_keys_of(identities.drop_last());
        match identities.last() {
            AgentIdentityView::PublicKey(key) => front.push(key),
            AgentIdentityView::Certificate => front,
        }
    }
}

/// The plain keys that an agent holds. Certificates are left out.
pub fn plain_keys(identities: &Vec<AgentIdentity>) -> (r: Vec<AgentKey>)
    ensures
        r.deep_view() == plain_keys_of(identities.deep_view()),
{
    let ghost view = identities.deep_view();
    let mut r: Vec<AgentKey> = Vec::new();
    let mut i: usize = 0;
    proof {
        assert(view.take(0) =~= Seq::empty());
        assert(r.deep_view() =~= Seq::empty());
    }
    while i < identities.len()
        invariant
            i <= identities@.len(),
            r.deep_view() == plain_keys_of(view.take(i as int)),
        decreases identities@.len() - i,
    {
        let ghost done = r.deep_view();
        proof {
            assert(view.take(i + 1).drop_last() =~= view.take(i as int));
            assert(view.take(i + 1).last() == identities@[i as int]@);
        }
        match &identities[i] {
            AgentIdentity::PublicKey(key) => {
                let copy = key.duplicate();
                let ghost one = copy@;
                r.push(copy);
                assert(r.deep_view() =~= done.push(one));
            },
            AgentIdentity::Certificate => {},
        }
        i = i + 1;
    }
    assert(view.take(i as int) =~= view);
    r
}

/// What the user is shown of a key, given what is read from it.
pub open spec fn agent_key_info(
    algorithm: Option<Seq<char>>,
    fingerprint: Option<Seq<char>>,
    comment: Seq<char>,
) -> Option<AgentIdentityInfoView> {
    match (algorithm, fingerprint) {
        (Some(algorithm), Some(fingerprint_sha256)) => Some(
            AgentIdentityInfoView { fingerprint_sha256, algorithm, comment },
        ),
        _ => None,
    }
}

/// What the user is shown of the keys of an agent, in their order. Bytes that are
/// no key are left out.
pub open spec fn agent_infos(keys: Seq<AgentKeyView>) -> Seq<AgentIdentityInfoView>
    decreases keys.len(),
{
    if keys.len() == 0 {
        Seq::empty()
    } else {
        let front = agent_infos(keys.drop_last());
        let last = keys.last();
        match agent_key_info(outside::key_algorithm_of(last.key), outside::key_fingerprint_of(last.key), last.comment) {
            Some(info) => front.push(info),
            None => front,
        }
    }
}

/// What the user is shown of the keys of an agent.
pub fn list_agent_identities(keys: &Vec<AgentKey>) -> (r: Vec<AgentIdentityInfo>)
    ensures
        r.deep_view() == agent_infos(keys.deep_view()),
{
    let ghost view = keys.deep_view();
    let mut r: Vec<AgentIdentityInfo> = Vec::new();
    let mut i: usize = 0;
    proof {
        assert(view.take(0) =~= Seq::empty());
        assert(r.deep_view() =~= Seq::empty());
    }
    while i < keys.len()
        invariant
            i <= keys@.len(),
            r.deep_view() == agent_infos(view.take(i as int)),
        decreases keys@.len() - i,
    {
        let ghost done = r.deep_view();
        let item = &keys[i];
        proof {
            assert(view.take(i + 1).drop_last() =~= view.take(i as int));
            assert(view.take(i + 1).last() == item@);
            assert(item@.key =~= item.key@);
        }
        let algorithm = key_algorithm(&item.key);
        let fingerprint = key_fingerprint(&item.key);
        match algorithm {
            Some(algorithm) => match fingerprint {
                Some(fingerprint_sha256) => {
                    let info = AgentIdentityInfo {
                        fingerprint_sha256,
                        algorithm,
                        comment: item.comment.clone(),
                    };
                    let ghost one = info@;
                    r.push(info);
                    assert(r.deep_view() =~= done.push(one));
                },
                None => {},
            },
            None => {},
        }
        i = i + 1;
    }
    assert(view.take(i as int) =~= view);
    r
}

/// Whether a key is tried before another: the preferred one is.
pub open spec fn tried_before(
    fingerprints: Seq<Option<Seq<char>>>,
    preferred: Option<Seq<char>>,
    a: int,
    b: int,
) -> bool {
    preferred is Some && fingerprints[a] == preferred && fingerprints[b] != preferred
}

/// Whether `order` is the order in which keys with these fingerprints are tried:
/// those with the preferred fingerprint first, and otherwise as they came.
pub open spec fn is_trial_order(
    fingerprints: Seq<Option<Seq<char>>>,
    preferred: Option<Seq<char>>,
    order: Seq<usize>,
) -> bool {
    &&& order.len() == fingerprints.len()
    &&& forall|i: int| 0 <= i < order.len() ==> 0 <= #[trigger] order[i] < fingerprints.len()
    &&& forall|k: usize| k < fingerprints.len() ==> #[trigger] order.contains(k)
    &&& forall|i: int, j: int|
        0 <= i < j < order.len() ==> tried_before(
            fingerprints,
            preferred,
            #[trigger] order[i] as int,
            #[trigger] order[j] as int,
        ) || (!tried_before(fingerprints, preferred, order[j] as int, order[i] as int) && order[i]
            < order[j])
}

/// The order in which keys are tried, given their fingerprints.
pub fn trial_order(fingerprints: &Vec<Option<String>>, preferred: &Option<String>) -> (r: Vec<usize>)
    ensures
        is_trial_order(fingerprints.deep_view(), preferred.deep_view(), r@),
{
    let ghost view = fingerprints.deep_view();
    let ghost wanted = preferred.deep_view();
    let mut keys: Vec<u64> = Vec::new();
    let mut i: usize = 0;
    while i < fingerprints.len()
        invariant
            i <= fingerprints@.len(),
            keys@.len() == i,
            forall|j: int|
                0 <= j < i ==> #[trigger] keys@[j] == (if wanted is Some && view[j] == wanted {
                    0u64
                } else {
                    1u64
                }),
        decreases fingerprints@.len() - i,
    {
        assert(view[i as int] == fingerprints@[i as int].deep_view());
        let key: u64 = if preferred.is_some() && same_option(&fingerprints[i], preferred) {
            0
        } else {
            1
        };
        keys.push(key);
        i = i + 1;
    }
    let order = order_of(&keys);
    proof {
        assert forall|i: int, j: int| 0 <= i < j < order@.len() implies tried_before(
            view,
            wanted,
            #[trigger] order@[i] as int,
            #[trigger] order@[j] as int,
        ) || (!tried_before(view, wanted, order@[j] as int, order@[i] as int) && order@[i]
            < order@[j]) by {
            assert(sort::precedes(keys@, order@[i] as int, order@[j] as int));
            assert(keys@[order@[i] as int] == (if wanted is Some && view[order@[i] as int]
                == wanted {
                0u64
            } else {
                1u64
            }));
            assert(keys@[order@[j] as int] == (if wanted is Some && view[order@[j] as int]
                == wanted {
                0u64
            } else {
                1u64
            }));
        }
    }
    order
}

/// The fingerprints of keys.
pub open spec fn agent_fingerprints(keys: Seq<AgentKeyView>) -> Seq<Option<Seq<char>>> {
    Seq::new(keys.len(), |i: int| outside::key_fingerprint_of(keys[i].key))
}

/// The error where no key of an agent was accepted, or there was none to try.
pub open spec fn agent_exhausted_error(attempted: bool) -> ErrorView {
    error::ssh_error(
        if attempted {
            "AUTH-AGENT-REJECTED"@
        } else {
            "AUTH-AGENT-NO-KEYS"@
        },
        if attempted {
            "服务器未接受 SSH Agent 中的密钥"@
        } else {
            "SSH Agent 中没有可用密钥"@
        },
        "no plain SSH agent identity authenticated successfully"@,
        true,
    )
}

/// A login with the keys of an agent.
pub struct AgentLogin {
    order: Vec<usize>,
    at: usize,
}

impl AgentLogin {
    /// The order in which the keys are tried.
    pub closed spec fn order(self) -> Seq<usize> {
        self.order@
    }

    /// The number of keys that were tried.
    pub closed spec fn tried(self) -> int {
        self.at as int
    }

    /// Starts a login with these keys.
    pub fn new(keys: &Vec<AgentKey>, preferred: &Option<String>) -> (r: Self)
        ensures
            r.tried() == 0,
            is_trial_order(
                agent_fingerprints(keys.deep_view()),
                preferred.deep_view(),
                r.order(),
            ),
    {
        let ghost view = keys.deep_view();
        let mut fingerprints: Vec<Option<String>> = Vec::new();
        let mut i: usize = 0;
        while i < keys.len()
            invariant
                i <= keys@.len(),
                fingerprints@.len() == i,
                forall|j: int|
                    0 <= j < i ==> (#[trigger] fingerprints@[j]).deep_view() == outside::key_fingerprint_of(
                        view[j].key,
                    ),
            decreases keys@.len() - i,
        {
            proof {
                assert(view[i as int] == keys@[i as int]@);
                assert(view[i as int].key =~= keys@[i as int].key@);
            }
            fingerprints.push(key_fingerprint(&keys[i].key));
            i = i + 1;
        }
        assert(fingerprints.deep_view() =~= agent_fingerprints(view));
        AgentLogin { order: trial_order(&fingerprints, preferred), at: 0 }
    }

    /// The place of the key that is tried next, or the error where none is left.
    pub fn next(&mut self) -> (r: Result<usize, AppError>)
        requires
            0 <= old(self).tried() <= old(self).order().len(),
        ensures
            final(self).order() == old(self).order(),
            0 <= final(self).tried() <= final(self).order().len(),
            match r {
                Ok(at) => old(self).tried() < old(self).order().len() && at
                    == old(self).order()[old(self).tried()] && final(self).tried()
                    == old(self).tried() + 1,
                Err(error) => old(self).tried() == old(self).order().len() && error@
                    == agent_exhausted_error(old(self).tried() > 0) && final(self).tried()
                    == old(self).tried(),
            },
    {
        if self.at < self.order.len() {
            let at: usize = self.order[self.at];
            self.at = self.at + 1;
            return Ok(at);
        }
        if self.at > 0 {
            Err(
                AppError::ssh(
                    "AUTH-AGENT-REJECTED",
                    "服务器未接受 SSH Agent 中的密钥",
                    "no plain SSH agent identity authenticated successfully",
                    true,
                ),
            )
        } else {
            Err(
                AppError::ssh(
                    "AUTH-AGENT-NO-KEYS",
                    "SSH Agent 中没有可用密钥",
                    "no plain SSH agent identity authenticated successfully",
                    true,
                ),
            )
        }
    }
}

/// The preferred key of an agent is tried first, where the agent holds it.
pub proof fn preferred_key_is_first(
    fingerprints: Seq<Option<Seq<char>>>,
    preferred: Option<Seq<char>>,
    order: Seq<usize>,
    held: int,
)
    requires
        is_trial_order(fingerprints, preferred, order),
        0 <= held < fingerprints.len(),
        fingerprints.len() <= usize::MAX,
        preferred is Some,
        fingerprints[held] == preferred,
    ensures
        order.len() > 0,
        fingerprints[order[0] as int] == preferred,
{
    assert(order.contains(held as usize));
    let i = order.index_of(held as usize);
    assert(order[i] == held as usize);
    if i > 0 {
        assert(tried_before(fingerprints, preferred, order[0] as int, order[i] as int) || (
        !tried_before(fingerprints, preferred, order[i] as int, order[0] as int) && order[0]
            < order[i]));
    }
}

/// A connection goes on only with the key that was confirmed: any other key is
/// refused, and the user is told that the key changed, whatever else went wrong.
pub proof fn unconfirmed_keys_are_refused(
    expected: Seq<char>,
    failure: Option<ErrorView>,
    shown: Option<Seq<char>>,
    identity: Result<HostKeyIdentityView, ErrorView>,
)
    ensures
        after_dial(expected, failure, shown, identity) is Authenticate ==> shown == Some(expected),
        shown != Some(expected) ==> after_dial(expected, failure, shown, identity) is Failed,
        shown is Some && shown != Some(expected) ==> after_dial(expected, failure, shown, identity)
            == (LoginStepView::Failed { error: ssh_errors::host_key_changed_error() }),
{
}

/// The key that is recorded for a server is the one that was confirmed.
pub proof fn confirmed_keys_are_recorded(
    expected: Seq<char>,
    failure: Option<ErrorView>,
    captured: Option<Seq<u8>>,
)
    ensures
        after_dial(
            expected,
            failure,
            ssh_errors::shown_fingerprint(captured),
            ssh_errors::shown_identity(ssh_errors::read_key(captured)),
        ) matches LoginStepView::Authenticate { identity } ==> identity.fingerprint_sha256
            == expected,
{
}

/// The user logs in the way that the request names, with the secrets of the request, and
/// in no other: by the password where it says so, by the key file and its passphrase, by
/// the questions of the server, or by the agent with the key that is preferred.
pub proof fn logins_go_by_the_request(request: ConnectionRequestView)
    ensures
        method_of(request) is Password <==> request.auth_type == AuthType::Password,
        method_of(request) is PrivateKey <==> request.auth_type == AuthType::PrivateKey,
        method_of(request) is Interactive <==> request.auth_type == AuthType::KeyboardInteractive,
        method_of(request) is Agent <==> request.auth_type == AuthType::Agent,
        match method_of(request) {
            LoginMethodView::Password(password) => match request.password {
                Some(given) => password == given,
                None => password.len() == 0,
            },
            LoginMethodView::PrivateKey { path, passphrase } => passphrase
                == request.private_key_passphrase && match request.private_key_path {
                Some(given) => path == given,
                None => path.len() == 0,
            },
            LoginMethodView::Interactive => true,
            LoginMethodView::Agent { preferred } => preferred == request.agent_key_fingerprint,
        },
        ({
            let left = without_login(request);
            &&& left.auth_type == request.auth_type
            &&& left.host == request.host
            &&& left.port == request.port
            &&& left.username == request.username
            &&& left.proxy == request.proxy
            &&& left.agent_key_fingerprint == request.agent_key_fingerprint
            &&& left.timeout_seconds == request.timeout_seconds
            &&& left.keepalive_enabled == request.keepalive_enabled
            &&& left.keepalive_seconds == request.keepalive_seconds
            &&& request.auth_type == AuthType::Password ==> left.password is None
            &&& request.auth_type == AuthType::PrivateKey ==> left.private_key_passphrase is None
        }),
{
}

/// A server is reached over the stream that was handed in where there is one, else over
/// the proxy of the request where it has one, and else at its own address.
pub proof fn servers_are_reached_as_asked(request: ConnectionRequestView, over_stream: bool)
    ensures
        transport_of(request, over_stream) is Stream <==> over_stream,
        transport_of(request, over_stream) is Proxy <==> !over_stream && request.proxy is Some,
        match transport_of(request, over_stream) {
            TransportView::Stream => true,
            TransportView::Proxy(proxy) => request.proxy == Some(proxy),
            TransportView::Direct { host, port } => host == request.host && port == request.port
                && request.proxy is None,
        },
{
}

/// A connection stands if and only if the server was reached, showed the key that was
/// confirmed and accepted the login; it is then known by that key. What went wrong
/// otherwise is told.
pub proof fn connections_stand_once_accepted(
    expected: Seq<char>,
    failure: Option<ErrorView>,
    shown: Option<Seq<char>>,
    identity: Result<HostKeyIdentityView, ErrorView>,
    reply: Result<LoginReplyView, ErrorView>,
)
    ensures
        after_dial(expected, failure, shown, identity) is Authenticate <==> failure is None
            && identity is Ok && shown == Some(expected),
        match after_dial(expected, failure, shown, identity) {
            LoginStepView::Authenticate { identity: known } => {
                &&& identity == Ok::<HostKeyIdentityView, ErrorView>(known)
                &&& match after_login(known, reply) {
                    LoginStepView::Connected { identity: last } => last == known && (reply matches Ok(
                        said,
                    ) && said.accepted),
                    LoginStepView::Failed { error } => match reply {
                        Err(given) => error == given,
                        Ok(said) => !said.accepted && error.code == "AUTHENTICATION-FAILED"@
                            && error.retryable,
                    },
                    _ => false,
                }
            },
            LoginStepView::Failed { error } => failure is None && identity is Ok ==> error.code
                == "HOST-KEY-CHANGED"@,
            _ => false,
        },
{
}

/// A server that asks is answered for at most 16 rounds of at most 16 questions each; within
/// that, its questions are asked, a success logs in, and a refusal is told as one that may
/// be tried again.
pub proof fn questions_are_asked_within_limits(round: nat, reply: InteractiveReplyView)
    ensures
        match interactive_step(round, reply) {
            InteractiveStepView::Succeeded => round < 16 && reply is Success,
            InteractiveStepView::Ask(ids) => {
                &&& round < 16
                &&& reply matches InteractiveReplyView::Questions { prompts, .. } && prompts.len()
                    <= 16 && ids.len() == prompts.len()
            },
            InteractiveStepView::Failed(error) => if round >= 16 {
                error.code == "AUTH-INTERACTIVE-LIMIT"@ && !error.retryable
            } else {
                match reply {
                    InteractiveReplyView::Success => false,
                    InteractiveReplyView::Failure => error.code == "AUTH-INTERACTIVE-REJECTED"@
                        && error.retryable,
                    InteractiveReplyView::Questions { prompts, .. } => prompts.len() > 16
                        && error.code == "AUTH-INTERACTIVE-LIMIT"@ && !error.retryable,
                }
            },
        },
        INTERACTIVE_AUTH_SECONDS == 120,
{
}

/// The questions of a server are shown as it asked them, in their order, each under an id
/// of its own, and hidden where it asked for that.
pub proof fn questions_are_shown_as_asked(prompts: Seq<InteractivePromptView>, i: int, j: int)
    requires
        0 <= i < j < prompts.len(),
    ensures
        ({
            let fields = prompt_fields(prompts);
            &&& fields.len() == prompts.len()
            &&& fields[i].text == prompts[i].text
            &&& fields[i].echo == prompts[i].echo
            &&& fields[j].text == prompts[j].text
            &&& fields[j].echo == prompts[j].echo
            &&& fields[i].id == answer_ids(prompts.len())[i]
            &&& fields[i].id != fields[j].id
        }),
{
    text::decimal_tells_apart(i as nat, j as nat);
    let (a, b) = (answer_ids(prompts.len())[i], answer_ids(prompts.len())[j]);
    let (x, y) = (text::decimal(i as nat), text::decimal(j as nat));
    let n = "answer-"@.len() as int;
    assert(a.skip(n) =~= x);
    assert(b.skip(n) =~= y);
}

/// The keys of an agent are its plain keys, in their order; certificates are passed over.
pub proof fn plain_keys_are_kept(identities: Seq<AgentIdentityView>, key: AgentKeyView)
    ensures
        plain_keys_of(identities).contains(key) <==> identities.contains(
            AgentIdentityView::PublicKey(key),
        ),
    decreases identities.len(),
{
    let keys = plain_keys_of(identities);
    if identities.len() > 0 {
        let front = identities.drop_last();
        let before = plain_keys_of(front);
        let wanted = AgentIdentityView::PublicKey(key);
        plain_keys_are_kept(front, key);
        assert(identities[identities.len() - 1] == identities.last());
        if before.contains(key) {
            let k = choose|k: int| 0 <= k < before.len() && before[k] == key;
            assert(keys[k] == key);
            let i = choose|i: int| 0 <= i < front.len() && front[i] == wanted;
            assert(identities[i] == wanted);
        }
        if keys.contains(key) {
            let k = choose|k: int| 0 <= k < keys.len() && keys[k] == key;
            if k < before.len() {
                assert(before[k] == key);
            }
        }
        if identities.contains(wanted) {
            let i = choose|i: int| 0 <= i < identities.len() && identities[i] == wanted;
            if i < front.len() {
                assert(front[i] == wanted);
            } else {
                assert(keys[keys.len() - 1] == key);
            }
        }
    }
}

/// A key of an agent is shown by its fingerprint, its algorithm and its comment, where both
/// can be read; and an agent of which no key was accepted is told from one without keys.
pub proof fn agent_keys_are_shown(
    algorithm: Option<Seq<char>>,
    fingerprint: Option<Seq<char>>,
    comment: Seq<char>,
    attempted: bool,
)
    ensures
        agent_key_info(algorithm, fingerprint, comment) is Some <==> algorithm is Some
            && fingerprint is Some,
        agent_key_info(algorithm, fingerprint, comment) matches Some(info) ==> Some(info.algorithm)
            == algorithm && Some(info.fingerprint_sha256) == fingerprint && info.comment == comment,
        agent_exhausted_error(attempted).code == if attempted {
            "AUTH-AGENT-REJECTED"@
        } else {
            "AUTH-AGENT-NO-KEYS"@
        },
        agent_exhausted_error(attempted).retryable,
{
}

/// The keys of an agent that are shown are those that can be read, each with its comment.
pub proof fn readable_agent_keys_are_shown(keys: Seq<AgentKeyView>, next: AgentKeyView)
    ensures
        agent_infos(Seq::empty()).len() == 0,
        agent_fingerprints(keys).len() == keys.len(),
        forall|i: int|
            0 <= i < keys.len() ==> #[trigger] agent_fingerprints(keys)[i]
                == outside::key_fingerprint_of(keys[i].key),
        ({
            let algorithm = outside::key_algorithm_of(next.key);
            let fingerprint = outside::key_fingerprint_of(next.key);
            agent_infos(keys.push(next)) == if algorithm is Some && fingerprint is Some {
                agent_infos(keys).push(
                    AgentIdentityInfoView {
                        fingerprint_sha256: fingerprint->0,
                        algorithm: algorithm->0,
                        comment: next.comment,
                    },
                )
            } else {
                agent_infos(keys)
            }
        }),
{
    assert(keys.push(next).drop_last() =~= keys);
}

} // verus!
