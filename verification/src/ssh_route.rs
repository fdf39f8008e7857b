//! Setting up a route: one server after the other is reached through the one
//! before it, and where one fails, those that were reached are left again.

#![verifier::loop_isolation(false)]

use crate::error::{self, AppError, ErrorView};
use crate::models::{
    ConnectionRequest, ConnectionRequestView, Duplicate, RouteRequest, RouteRequestView,
    SessionState, SessionStateView, SessionStatus,
};
use crate::outside::{self, new_id, now};
use crate::routes::{self, connection_setup_timeout};
use crate::text::{self, cat3, cat4, decimal_text};
use crate::tunnel::{ForwardTarget, ForwardTargetView};
use vstd::prelude::*;

verus! {

/// How long logging in on a route may take, in seconds, or `None` where that is
/// more than can be counted.
pub fn authentication_timeout(request: &RouteRequest) -> (r: Option<u64>)
    ensures
        ({
            let wanted = routes::setup_seconds(request@.target) + routes::jumps_setup_seconds(request@.jump_hosts);
            match r {
                Some(seconds) => seconds == wanted,
                None => wanted > u64::MAX,
            }
        }),
{
    connection_setup_timeout(request)
}

/// Where the server before a server connects to: the proxy of that server, where it
/// has one, or the server itself.
pub open spec fn hop_target_of(request: ConnectionRequestView) -> ForwardTargetView {
    match request.proxy {
        Some(proxy) => ForwardTargetView { host: proxy.host, port: proxy.port },
        None => ForwardTargetView { host: request.host, port: request.port },
    }
}

/// Where the server before a server connects to.
pub fn hop_target(request: &ConnectionRequest) -> (r: ForwardTarget)
    ensures
        r@ == hop_target_of(request@),
{
    match &request.proxy {
        Some(proxy) => ForwardTarget { host: proxy.host.clone(), port: proxy.port },
        None => ForwardTarget { host: request.host.clone(), port: request.port },
    }
}

/// The error for a server on the way that could not be reached.
pub open spec fn jump_error(
    index: nat,
    total: nat,
    request: ConnectionRequestView,
    error: ErrorView,
) -> ErrorView {
    error::ssh_error(
        "JUMP-HOST-FAILED"@,
        "第 "@ + text::decimal(index + 1) + "/"@ + text::decimal(total) + " 跳“"@ + request.name
            + "”连接失败"@,
        "jump "@ + text::decimal(index + 1) + "/"@ + text::decimal(total) + " target="@ + request.host + ":"@
            + text::decimal(request.port as nat) + " cause="@ + error.code + " details="@ + (
        match error.technical_details {
            Some(details) => details,
            None => "none"@,
        }),
        error.retryable,
    )
}

/// The error for a server on the way that could not be reached.
pub fn map_jump_error(index: usize, total: usize, request: &ConnectionRequest, error: &AppError) -> (r:
    AppError)
    requires
        index < total,
    ensures
        r@ == jump_error(index as nat, total as nat, request@, error@),
{
    let place = cat3(
        decimal_text(index as u64 + 1).as_str(),
        "/",
        decimal_text(total as u64).as_str(),
    );
    let mut message = cat4("第 ", place.as_str(), " 跳“", request.name.as_str());
    message.append("”连接失败");
    let mut details = cat4("jump ", place.as_str(), " target=", request.host.as_str());
    details.append(":");
    details.append(decimal_text(request.port as u64).as_str());
    details.append(" cause=");
    details.append(error.code);
    details.append(" details=");
    match &error.technical_details {
        Some(text) => {
            details.append(text.as_str());
        },
        None => {
            details.append("none");
        },
    }
    let r = AppError::ssh(
        "JUMP-HOST-FAILED",
        message.as_str(),
        details.as_str(),
        error.retryable,
    );
    proof {
        let wanted = jump_error(index as nat, total as nat, request@, error@);
        assert(message@ =~= wanted.message);
        assert(Some(details@) == wanted.technical_details) by {
            assert(details@ =~= wanted.technical_details->0);
        }
    }
    r
}

/// What the user is told while a server on the way is reached.
pub fn jump_progress(index: usize, total: usize, name: &str) -> (r: String)
    requires
        index < total,
    ensures
        r@ == "正在连接第 "@ + text::decimal((index + 1) as nat) + "/"@ + text::decimal(total as nat) + " 跳："@
            + name@,
{
    let mut r = cat4(
        "正在连接第 ",
        decimal_text(index as u64 + 1).as_str(),
        "/",
        decimal_text(total as u64).as_str(),
    );
    r.append(" 跳：");
    r.append(name);
    r
}

/// How far setting up a route has come. The servers are numbered from the nearest;
/// the target comes behind the servers on the way.
#[verifier::ext_equal]
pub enum RouteStepView {
    /// The server before asks for a connection to the server with this number.
    OpenStream { index: int },
    /// The server with this number is logged in to.
    Connect { index: int },
    /// The last of so many servers is left.
    Close { left: int, reason: Seq<char>, error: ErrorView },
    /// The route stands.
    Connected,
    /// It does not, and no server is connected any more.
    Failed { error: ErrorView },
}

/// A route: the servers on the way, and the target, where it is logged in to.
#[verifier::ext_equal]
pub struct RoutePlanView {
    pub request: RouteRequestView,
    pub with_target: bool,
}

impl RoutePlanView {
    /// The number of servers that are logged in to.
    pub open spec fn total(self) -> int {
        self.request.jump_hosts.len() + (if self.with_target {
            1int
        } else {
            0int
        })
    }

    /// The request for a server.
    pub open spec fn node(self, index: int) -> ConnectionRequestView {
        if index < self.request.jump_hosts.len() {
            self.request.jump_hosts[index].connection
        } else {
            self.request.target
        }
    }

    /// The error for a server that could not be reached.
    pub open spec fn error_at(self, index: int, error: ErrorView) -> ErrorView {
        if index < self.request.jump_hosts.len() {
            jump_error(
                index as nat,
                self.request.jump_hosts.len(),
                self.request.jump_hosts[index].connection,
                error,
            )
        } else {
            error
        }
    }

    /// What the servers that were reached are told when a connection to the next
    /// cannot be had.
    pub open spec fn stream_reason(self, index: int) -> Seq<char> {
        if index < self.request.jump_hosts.len() {
            "jump route failed"@
        } else {
            "target route failed"@
        }
    }

    /// What the servers that were reached are told when the login to the next
    /// fails.
    pub open spec fn login_reason(self, index: int) -> Seq<char> {
        if index < self.request.jump_hosts.len() {
            "jump authentication failed"@
        } else {
            "target connection failed"@
        }
    }
}

/// The step that reaches the server with this number.
pub open spec fn reaching(plan: RoutePlanView, index: int) -> RouteStepView {
    if index >= plan.total() {
        RouteStepView::Connected
    } else if index == 0 {
        RouteStepView::Connect { index: 0 }
    } else {
        RouteStepView::OpenStream { index }
    }
}

/// The step that leaves so many servers.
pub open spec fn closing(left: int, reason: Seq<char>, error: ErrorView) -> RouteStepView {
    if left <= 0 {
        RouteStepView::Failed { error }
    } else {
        RouteStepView::Close { left, reason, error }
    }
}

/// The step after the caller did what was asked, or failed at it.
pub open spec fn route_after(
    plan: RoutePlanView,
    step: RouteStepView,
    failure: Option<ErrorView>,
) -> RouteStepView {
    match step {
        RouteStepView::OpenStream { index } => match failure {
            None => RouteStepView::Connect { index },
            Some(error) => closing(index, plan.stream_reason(index), plan.error_at(index, error)),
        },
        RouteStepView::Connect { index } => match failure {
            None => reaching(plan, index + 1),
            Some(error) => closing(index, plan.login_reason(index), plan.error_at(index, error)),
        },
        RouteStepView::Close { left, reason, error } => closing(left - 1, reason, error),
        RouteStepView::Connected => step,
        RouteStepView::Failed { .. } => step,
    }
}

/// What the caller does next.
#[derive(Debug)]
pub enum RouteAction {
    /// Has the server with this number connect to a place.
    OpenStream { through: usize, target: ForwardTarget },
    /// Logs in to the server with this number.
    Connect { index: usize },
    /// Leaves the server with this number, and tells it why.
    Close { index: usize, reason: String },
    /// Nothing is left to do.
    Finish,
}

/// What a [`RouteAction`] says.
#[verifier::ext_equal]
pub enum RouteActionView {
    OpenStream { through: int, target: ForwardTargetView },
    Connect { index: int },
    Close { index: int, reason: Seq<char> },
    Finish,
}

impl View for RouteAction {
    type V = RouteActionView;

    open spec fn view(&self) -> RouteActionView {
        match self {
            RouteAction::OpenStream { through, target } => RouteActionView::OpenStream {
                through: *through as int,
                target: target@,
            },
            RouteAction::Connect { index } => RouteActionView::Connect { index: *index as int },
            RouteAction::Close { index, reason } => RouteActionView::Close {
                index: *index as int,
                reason: reason@,
            },
            RouteAction::Finish => RouteActionView::Finish,
        }
    }
}

/// What the caller does in a step.
pub open spec fn route_action(plan: RoutePlanView, step: RouteStepView) -> RouteActionView {
    match step {
        RouteStepView::OpenStream { index } => RouteActionView::OpenStream {
            through: index - 1,
            target: hop_target_of(plan.node(index)),
        },
        RouteStepView::Connect { index } => RouteActionView::Connect { index },
        RouteStepView::Close { left, reason, .. } => RouteActionView::Close {
            index: left - 1,
            reason,
        },
        RouteStepView::Connected => RouteActionView::Finish,
        RouteStepView::Failed { .. } => RouteActionView::Finish,
    }
}

/// Whether a step is one that a route can come to.
pub open spec fn route_step_fits(plan: RoutePlanView, step: RouteStepView) -> bool {
    match step {
        RouteStepView::OpenStream { index } => 0 < index < plan.total(),
        RouteStepView::Connect { index } => 0 <= index < plan.total(),
        RouteStepView::Close { left, .. } => 0 < left < plan.total(),
        _ => true,
    }
}

/// The number of servers that are connected in a step.
pub open spec fn connected_servers(plan: RoutePlanView, step: RouteStepView) -> int {
    match step {
        RouteStepView::OpenStream { index } => index,
        RouteStepView::Connect { index } => index,
        RouteStepView::Close { left, .. } => left,
        RouteStepView::Connected => plan.total(),
        RouteStepView::Failed { .. } => 0,
    }
}

/// How far setting up a route has come.
#[derive(Debug)]
enum RouteStep {
    OpenStream { index: usize },
    Connect { index: usize },
    Close { left: usize, reason: String, error: AppError },
    Connected,
    Failed { error: AppError },
}

/// Sets up a route.
pub struct RouteConnection {
    request: RouteRequest,
    with_target: bool,
    step: RouteStep,
}

impl View for RouteConnection {
    type V = RouteStepView;

    closed spec fn view(&self) -> RouteStepView {
        match self.step {
            RouteStep::OpenStream { index } => RouteStepView::OpenStream { index: index as int },
            RouteStep::Connect { index } => RouteStepView::Connect { index: index as int },
            RouteStep::Close { left, reason, error } => RouteStepView::Close {
                left: left as int,
                reason: reason@,
                error: error@,
            },
            RouteStep::Connected => RouteStepView::Connected,
            RouteStep::Failed { error } => RouteStepView::Failed { error: error@ },
        }
    }
}

impl RouteConnection {
    /// The route.
    pub closed spec fn plan(self) -> RoutePlanView {
        RoutePlanView { request: self.request@, with_target: self.with_target }
    }

    /// The step is one that the route can come to, and its servers can be counted.
    pub open spec fn wf(self) -> bool {
        &&& route_step_fits(self.plan(), self@)
        &&& self.plan().total() <= usize::MAX
    }

    /// Starts to set up a route, up to its target or up to the last server before
    /// it.
    pub fn new(request: RouteRequest, with_target: bool) -> (r: Self)
        requires
            request@.jump_hosts.len() < usize::MAX,
        ensures
            r.wf(),
            r.plan() == (RoutePlanView { request: request@, with_target }),
            r@ == reaching(r.plan(), 0),
    {
        let step = if request.jump_hosts.len() > 0 || with_target {
            RouteStep::Connect { index: 0 }
        } else {
            RouteStep::Connected
        };
        RouteConnection { request, with_target, step }
    }

    /// The request for a server.
    fn node(&self, index: usize) -> (r: &ConnectionRequest)
        ensures
            r@ == self.plan().node(index as int),
    {
        if index < self.request.jump_hosts.len() {
            assert(self.request@.jump_hosts[index as int]
                == self.request.jump_hosts@[index as int]@);
            &self.request.jump_hosts[index].connection
        } else {
            &self.request.target
        }
    }

    /// What the caller does next.
    pub fn action(&self) -> (r: RouteAction)
        requires
            self.wf(),
        ensures
            r@ == route_action(self.plan(), self@),
    {
        match &self.step {
            RouteStep::OpenStream { index } => RouteAction::OpenStream {
                through: *index - 1,
                target: hop_target(self.node(*index)),
            },
            RouteStep::Connect { index } => RouteAction::Connect { index: *index },
            RouteStep::Close { left, reason, .. } => RouteAction::Close {
                index: *left - 1,
                reason: reason.clone(),
            },
            RouteStep::Connected => RouteAction::Finish,
            RouteStep::Failed { .. } => RouteAction::Finish,
        }
    }

    /// What the user is told when a server on the way is begun with.
    pub fn progress(&self) -> (r: Option<String>)
        requires
            self.wf(),
        ensures
            ({
                let jumps = self.plan().request.jump_hosts;
                let begun = match self@ {
                    RouteStepView::OpenStream { index } => Some(index),
                    RouteStepView::Connect { index } => if index == 0 {
                        Some(index)
                    } else {
                        None
                    },
                    _ => None,
                };
                match begun {
                    Some(index) => if index < jumps.len() {
                        r.deep_view() == Some(
                            "正在连接第 "@ + text::decimal((index + 1) as nat) + "/"@ + text::decimal(jumps.len())
                                + " 跳："@ + jumps[index].connection.name,
                        )
                    } else {
                        r is None
                    },
                    None => r is None,
                }
            }),
    {
        let total: usize = self.request.jump_hosts.len();
        let begun: Option<usize> = match &self.step {
            RouteStep::OpenStream { index } => Some(*index),
            RouteStep::Connect { index } => if *index == 0 {
                Some(0)
            } else {
                None
            },
            _ => None,
        };
        match begun {
            Some(index) => {
                if index < total {
                    assert(self.request@.jump_hosts[index as int]
                        == self.request.jump_hosts@[index as int]@);
                    Some(
                        jump_progress(
                            index,
                            total,
                            self.request.jump_hosts[index].connection.name.as_str(),
                        ),
                    )
                } else {
                    None
                }
            },
            None => None,
        }
    }

    /// The error for a server that could not be reached.
    fn error_at(&self, index: usize, error: AppError) -> (r: AppError)
        ensures
            r@ == self.plan().error_at(index as int, error@),
    {
        let total: usize = self.request.jump_hosts.len();
        if index < total {
            assert(self.request@.jump_hosts[index as int]
                == self.request.jump_hosts@[index as int]@);
            map_jump_error(index, total, &self.request.jump_hosts[index].connection, &error)
        } else {
            error
        }
    }

    /// Goes on after the caller did what was asked, or failed at it.
    pub fn advance(&mut self, failure: Option<AppError>)
        requires
            old(self).wf(),
        ensures
            final(self).wf(),
            final(self).plan() == old(self).plan(),
            final(self)@ == route_after(
                old(self).plan(),
                old(self)@,
                match failure {
                    Some(error) => Some(error@),
                    None => None,
                },
            ),
    {
        let jumps: usize = self.request.jump_hosts.len();
        let next = match &self.step {
            RouteStep::OpenStream { index } => match failure {
                None => RouteStep::Connect { index: *index },
                Some(error) => {
                    let error = self.error_at(*index, error);
                    let reason = if *index < jumps {
                        "jump route failed"
                    } else {
                        "target route failed"
                    };
                    RouteStep::Close { left: *index, reason: reason.to_owned(), error }
                },
            },
            RouteStep::Connect { index } => match failure {
                None => {
                    let done = if self.with_target {
                        *index == jumps
                    } else {
                        *index + 1 == jumps
                    };
                    if done {
                        RouteStep::Connected
                    } else {
                        RouteStep::OpenStream { index: *index + 1 }
                    }
                },
                Some(error) => {
                    let error = self.error_at(*index, error);
                    if *index == 0 {
                        RouteStep::Failed { error }
                    } else {
                        let reason = if *index < jumps {
                            "jump authentication failed"
                        } else {
                            "target connection failed"
                        };
                        RouteStep::Close { left: *index, reason: reason.to_owned(), error }
                    }
                },
            },
            RouteStep::Close { left, reason, error } => {
                if *left == 1 {
                    RouteStep::Failed { error: error.duplicate() }
                } else {
                    RouteStep::Close {
                        left: *left - 1,
                        reason: reason.clone(),
                        error: error.duplicate(),
                    }
                }
            },
            RouteStep::Connected => RouteStep::Connected,
            RouteStep::Failed { error } => RouteStep::Failed { error: error.duplicate() },
        };
        self.step = next;
    }

    /// Whether the route stands, once nothing is left to do.
    pub fn outcome(self) -> (r: Option<Result<(), AppError>>)
        ensures
            match r {
                None => !(self@ is Connected) && !(self@ is Failed),
                Some(Ok(())) => self@ is Connected,
                Some(Err(error)) => self@ == (RouteStepView::Failed { error: error@ }),
            },
    {
        match self.step {
            RouteStep::Connected => Some(Ok(())),
            RouteStep::Failed { error } => Some(Err(error)),
            _ => None,
        }
    }
}

/// A route that fails leaves no server connected: each login adds one server, each
/// server that is left takes one away, nothing else does, and a route fails only
/// once none is connected.
pub proof fn failed_routes_leave_nothing_open(
    plan: RoutePlanView,
    step: RouteStepView,
    failure: Option<ErrorView>,
)
    requires
        route_step_fits(plan, step),
    ensures
        ({
            let after = route_after(plan, step, failure);
            &&& route_step_fits(plan, after)
            &&& connected_servers(plan, after) == connected_servers(plan, step) + (match step {
                RouteStepView::Connect { .. } => if failure is None {
                    1int
                } else {
                    0int
                },
                RouteStepView::Close { .. } => -1int,
                _ => 0int,
            })
        }),
{
}

/// The step in which leaving servers ends.
pub open spec fn closed_route(plan: RoutePlanView, step: RouteStepView) -> RouteStepView
    decreases connected_servers(plan, step),
{
    match step {
        RouteStepView::Close { left, .. } => if left > 0 {
            closed_route(plan, route_after(plan, step, None))
        } else {
            step
        },
        _ => step,
    }
}

/// Leaving the servers ends with the error of the one that failed, whose place on
/// the way it names.
pub proof fn failed_routes_name_the_server(plan: RoutePlanView, index: int, error: ErrorView)
    requires
        0 <= index < plan.total(),
    ensures
        closed_route(
            plan,
            route_after(plan, RouteStepView::Connect { index }, Some(error)),
        ) == (RouteStepView::Failed { error: plan.error_at(index, error) }),
        index < plan.request.jump_hosts.len() ==> plan.error_at(index, error).code
            == "JUMP-HOST-FAILED"@ && plan.error_at(index, error).retryable == error.retryable,
{
    lemma_closing(plan, index, plan.login_reason(index), plan.error_at(index, error));
}

/// Leaving servers ends with the error.
proof fn lemma_closing(plan: RoutePlanView, left: int, reason: Seq<char>, error: ErrorView)
    requires
        0 <= left,
    ensures
        closed_route(plan, closing(left, reason, error)) == (RouteStepView::Failed { error }),
    decreases left,
{
    if left > 0 {
        lemma_closing(plan, left - 1, reason, error);
    }
}

// ---------------------------------------------------------------------------
// Starting a session
// ---------------------------------------------------------------------------

/// How far starting a session has come.
#[verifier::ext_equal]
pub enum StartStepView {
    /// A connection that stands already is asked for.
    Acquire,
    /// A terminal is opened on it.
    OpenShared,
    /// It is forgotten, since no terminal could be opened.
    Forget,
    /// A new connection is set up.
    Connect,
    /// The key of the server is recorded.
    Approve,
    /// The connection is made available for others, or kept for this session.
    Adopt,
    /// A terminal is opened on it.
    OpenNew,
    /// The terminal gets its size.
    Terminal,
    /// The shell is started.
    Shell,
    /// The session is entered.
    Register,
    /// The session runs.
    Started,
    /// It does not.
    Failed { error: ErrorView },
}

/// What came of what the caller did. `Found` answers whether a connection stands.
#[derive(Debug)]
pub enum StartEvent {
    Found(bool),
    Done,
    Failed(AppError),
}

/// What a [`StartEvent`] says.
#[verifier::ext_equal]
pub enum StartEventView {
    Found(bool),
    Done,
    Failed(ErrorView),
}

impl View for StartEvent {
    type V = StartEventView;

    open spec fn view(&self) -> StartEventView {
        match self {
            StartEvent::Found(there) => StartEventView::Found(*there),
            StartEvent::Done => StartEventView::Done,
            StartEvent::Failed(error) => StartEventView::Failed(error@),
        }
    }
}

/// Whether an event answers a step.
pub open spec fn start_event_fits(step: StartStepView, event: StartEventView) -> bool {
    event is Failed || (event is Found <==> step is Acquire)
}

/// The step after the caller did what was asked.
pub open spec fn start_after(step: StartStepView, event: StartEventView) -> StartStepView {
    match (step, event) {
        (StartStepView::Started, _) => step,
        (StartStepView::Failed { .. }, _) => step,
        (StartStepView::OpenShared, StartEventView::Failed(_)) => StartStepView::Forget,
        (_, StartEventView::Failed(error)) => StartStepView::Failed { error },
        (StartStepView::Acquire, StartEventView::Found(there)) => if there {
            StartStepView::OpenShared
        } else {
            StartStepView::Connect
        },
        (StartStepView::Acquire, _) => step,
        (StartStepView::OpenShared, _) => StartStepView::Terminal,
        (StartStepView::Forget, _) => StartStepView::Connect,
        (StartStepView::Connect, _) => StartStepView::Approve,
        (StartStepView::Approve, _) => StartStepView::Adopt,
        (StartStepView::Adopt, _) => StartStepView::OpenNew,
        (StartStepView::OpenNew, _) => StartStepView::Terminal,
        (StartStepView::Terminal, _) => StartStepView::Shell,
        (StartStepView::Shell, _) => StartStepView::Register,
        (StartStepView::Register, _) => StartStepView::Started,
    }
}

/// How far starting a session has come.
#[derive(Debug)]
pub enum StartStep {
    Acquire,
    OpenShared,
    Forget,
    Connect,
    Approve,
    Adopt,
    OpenNew,
    Terminal,
    Shell,
    Register,
    Started,
    Failed { error: AppError },
}

impl View for StartStep {
    type V = StartStepView;

    open spec fn view(&self) -> StartStepView {
        match self {
            StartStep::Acquire => StartStepView::Acquire,
            StartStep::OpenShared => StartStepView::OpenShared,
            StartStep::Forget => StartStepView::Forget,
            StartStep::Connect => StartStepView::Connect,
            StartStep::Approve => StartStepView::Approve,
            StartStep::Adopt => StartStepView::Adopt,
            StartStep::OpenNew => StartStepView::OpenNew,
            StartStep::Terminal => StartStepView::Terminal,
            StartStep::Shell => StartStepView::Shell,
            StartStep::Register => StartStepView::Register,
            StartStep::Started => StartStepView::Started,
            StartStep::Failed { error } => StartStepView::Failed { error: error@ },
        }
    }
}

/// Starts a session.
pub struct SessionStart {
    step: StartStep,
}

impl View for SessionStart {
    type V = StartStepView;

    closed spec fn view(&self) -> StartStepView {
        self.step@
    }
}

impl SessionStart {
    /// Starts a session, on a connection that stands already where one may be
    /// shared.
    pub fn new(shared: bool) -> (r: Self)
        ensures
            r@ == (if shared {
                StartStepView::Acquire
            } else {
                StartStepView::Connect
            }),
    {
        SessionStart {
            step: if shared {
                StartStep::Acquire
            } else {
                StartStep::Connect
            },
        }
    }

    /// What the caller does next.
    pub fn step(&self) -> (r: &StartStep)
        ensures
            r@ == self@,
    {
        &self.step
    }

    /// Goes on after the caller did what was asked.
    pub fn advance(&mut self, event: StartEvent)
        requires
            start_event_fits(old(self)@, event@),
        ensures
            final(self)@ == start_after(old(self)@, event@),
    {
        let next = match (&self.step, event) {
            (StartStep::Started, _) => StartStep::Started,
            (StartStep::Failed { error }, _) => StartStep::Failed { error: error.duplicate() },
            (StartStep::OpenShared, StartEvent::Failed(_)) => StartStep::Forget,
            (_, StartEvent::Failed(error)) => StartStep::Failed { error },
            (StartStep::Acquire, StartEvent::Found(there)) => {
                if there {
                    StartStep::OpenShared
                } else {
                    StartStep::Connect
                }
            },
            (StartStep::Acquire, _) => StartStep::Acquire,
            (StartStep::OpenShared, _) => StartStep::Terminal,
            (StartStep::Forget, _) => StartStep::Connect,
            (StartStep::Connect, _) => StartStep::Approve,
            (StartStep::Approve, _) => StartStep::Adopt,
            (StartStep::Adopt, _) => StartStep::OpenNew,
            (StartStep::OpenNew, _) => StartStep::Terminal,
            (StartStep::Terminal, _) => StartStep::Shell,
            (StartStep::Shell, _) => StartStep::Register,
            (StartStep::Register, _) => StartStep::Started,
        };
        self.step = next;
    }

    /// Whether the session runs, once nothing is left to do.
    pub fn outcome(self) -> (r: Option<Result<(), AppError>>)
        ensures
            match r {
                None => !(self@ is Started) && !(self@ is Failed),
                Some(Ok(())) => self@ is Started,
                Some(Err(error)) => self@ == (StartStepView::Failed { error: error@ }),
            },
    {
        match self.step {
            StartStep::Started => Some(Ok(())),
            StartStep::Failed { error } => Some(Err(error)),
            _ => None,
        }
    }
}

/// A session that was started, as it is reported.
pub fn started_session_at(session_id: String, title: &str, now: String) -> (r: SessionState)
    ensures
        r@ == (SessionStateView {
            id: session_id@,
            title: title@,
            status: SessionStatus::Connected,
            started_at: now@,
        }),
{
    SessionState {
        id: session_id,
        title: title.to_owned(),
        status: SessionStatus::Connected,
        started_at: now,
    }
}

/// The id of a session: the one that it had before, or a new one.
pub fn session_id_or_new(session_id: Option<String>) -> (r: String)
    ensures
        match session_id {
            Some(id) => r@ == id@,
            None => outside::is_id_text(r@),
        },
{
    match session_id {
        Some(id) => id,
        None => new_id(),
    }
}

/// A session that was started, as it is reported.
pub fn started_session(session_id: String, title: &str) -> (r: SessionState)
    ensures
        r@ == (SessionStateView {
            id: session_id@,
            title: title@,
            status: SessionStatus::Connected,
            started_at: r@.started_at,
        }),
{
    started_session_at(session_id, title, now())
}

/// A new connection is used only once the key of its server was recorded: a
/// terminal is opened on it after the connection was adopted, which comes after the
/// key was recorded, which comes after the connection was set up.
pub proof fn new_connections_are_approved(step: StartStepView, event: StartEventView)
    ensures
        start_after(step, event) is OpenNew ==> step is Adopt && !(event is Failed),
        start_after(step, event) is Adopt ==> step is Approve && !(event is Failed),
        start_after(step, event) is Approve ==> step is Connect && !(event is Failed),
        start_after(step, event) is Terminal ==> (step is OpenNew || step is OpenShared) && !(
        event is Failed),
        start_after(step, event) is Started ==> step is Started || (step is Register && !(
        event is Failed)),
{
}

/// A route is set up server by server, each over the one before it and the first directly:
/// where nothing fails, every server is connected in its turn and the route stands.
pub proof fn routes_go_from_server_to_server(plan: RoutePlanView, index: int)
    requires
        0 <= index < plan.total(),
    ensures
        ({
            let connected = route_after(plan, RouteStepView::Connect { index }, None);
            let next = index + 1;
            &&& next < plan.total() ==> connected == (RouteStepView::OpenStream { index: next })
            &&& next == plan.total() ==> connected is Connected
            &&& index > 0 ==> route_after(plan, RouteStepView::OpenStream { index }, None) == (
            RouteStepView::Connect { index })
            &&& route_action(plan, RouteStepView::Connect { index }) == (RouteActionView::Connect {
                index,
            })
            &&& index > 0 ==> route_action(plan, RouteStepView::OpenStream { index }) == (
            RouteActionView::OpenStream {
                through: index - 1,
                target: hop_target_of(plan.node(index)),
            })
            &&& reaching(plan, 0) == (RouteStepView::Connect { index: 0 })
        }),
{
}

/// The servers of a route are its jump hosts in their order and then its target, where it
/// is asked for. A server is reached at its proxy where it has one, and else at its own
/// address.
pub proof fn routes_lead_over_their_jump_hosts(plan: RoutePlanView, index: int)
    requires
        0 <= index < plan.total(),
    ensures
        plan.total() == plan.request.jump_hosts.len() + if plan.with_target {
            1int
        } else {
            0
        },
        index < plan.request.jump_hosts.len() ==> plan.node(index)
            == plan.request.jump_hosts[index].connection,
        index == plan.request.jump_hosts.len() ==> plan.node(index) == plan.request.target,
        match plan.node(index).proxy {
            Some(proxy) => hop_target_of(plan.node(index)).host == proxy.host && hop_target_of(
                plan.node(index),
            ).port == proxy.port,
            None => hop_target_of(plan.node(index)).host == plan.node(index).host && hop_target_of(
                plan.node(index),
            ).port == plan.node(index).port,
        },
{
}

/// A step that fails is told: that of the target as it is, that of a jump host as one of
/// that jump host, with the cause and whether it may be tried again. What was connected is
/// closed, the last first, and then the route has failed with that error.
pub proof fn failed_steps_are_told(plan: RoutePlanView, index: int, error: ErrorView)
    requires
        0 <= index < plan.total(),
    ensures
        ({
            let told = plan.error_at(index, error);
            let after = route_after(plan, RouteStepView::Connect { index }, Some(error));
            let opened = route_after(plan, RouteStepView::OpenStream { index }, Some(error));
            &&& index == plan.request.jump_hosts.len() ==> told == error
            &&& index < plan.request.jump_hosts.len() ==> told.code == "JUMP-HOST-FAILED"@
                && told.retryable == error.retryable
            &&& index == 0 ==> after == (RouteStepView::Failed { error: told })
            &&& index > 0 ==> (after matches RouteStepView::Close { left, error: kept, .. } && left
                == index && kept == told)
            &&& index > 0 ==> (opened matches RouteStepView::Close { left, error: kept, .. } && left
                == index && kept == told)
        }),
        forall|left: int, reason: Seq<char>, failure: Option<ErrorView>|
            left > 0 ==> #[trigger] route_after(
                plan,
                RouteStepView::Close { left, reason, error },
                failure,
            ) == (if left == 1 {
                RouteStepView::Failed { error }
            } else {
                RouteStepView::Close { left: left - 1, reason, error }
            }),
        forall|left: int, reason: Seq<char>|
            left > 0 ==> #[trigger] route_action(
                plan,
                RouteStepView::Close { left, reason, error },
            ) == (RouteActionView::Close { index: left - 1, reason }),
{
}

/// A session is started over a connection that is shared where there is one, without a new
/// login, and over a new one where there is none or the shared one does not answer; either
/// way it gets a terminal and a shell and is registered.
pub proof fn sessions_start_over_what_is_there(found: bool)
    ensures
        ({
            let done = StartEventView::Done;
            let first = start_after(StartStepView::Acquire, StartEventView::Found(found));
            let then = start_after(start_after(start_after(first, done), done), done);
            &&& found ==> first is OpenShared && start_after(first, done) is Terminal
            &&& !found ==> first is Connect
            &&& start_after(StartStepView::Forget, done) is Connect
            &&& start_after(StartStepView::Connect, done) is Approve
            &&& start_after(StartStepView::Approve, done) is Adopt
            &&& start_after(StartStepView::Adopt, done) is OpenNew
            &&& start_after(StartStepView::OpenNew, done) is Terminal
            &&& start_after(StartStepView::Terminal, done) is Shell
            &&& start_after(StartStepView::Shell, done) is Register
            &&& start_after(StartStepView::Register, done) is Started
            &&& found ==> start_after(then, done) is Started
        }),
{
}

/// A step of a start that fails ends it with that error, but for a shared connection that
/// does not answer: it is forgotten and a new one is made. A start that is over stays so.
pub proof fn failed_starts_tell_why(step: StartStepView, error: ErrorView, event: StartEventView)
    ensures
        ({
            let after = start_after(step, StartEventView::Failed(error));
            &&& step is OpenShared ==> after is Forget
            &&& !(step is OpenShared) && !(step is Started) && !(step is Failed) ==> after == (
            StartStepView::Failed { error })
            &&& step is Started || step is Failed ==> start_after(step, event) == step
        }),
{
}

} // verus!
