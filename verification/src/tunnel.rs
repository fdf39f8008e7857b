//! Tunnels: those that run, what they carry, and the SOCKS5 requests that a
//! dynamic tunnel answers.

#![verifier::loop_isolation(false)]

use crate::error::{self, AppError, ErrorView};
use crate::lists::{self, HasId, index_of, remove_id};
use crate::models::{
    Duplicate, TunnelKind, TunnelProfile, TunnelProfileView, TunnelRuntimeState,
    TunnelRuntimeStateView, TunnelStatus,
};
use crate::outside::{self, new_id};
use crate::text::{self, cat2, cat3, clone_texts, decimal_text, same};
use vstd::prelude::*;

verus! {

/// The number of connections that a tunnel carries at the same time.
pub const MAX_TUNNEL_CONNECTIONS: usize = 100;

/// The number of seconds that a SOCKS5 client has for its request.
pub const SOCKS_HANDSHAKE_SECONDS: u64 = 10;

// ---------------------------------------------------------------------------
// Errors
// ---------------------------------------------------------------------------

/// The error for a registry that cannot be used any more, or a tunnel that is
/// gone from it.
pub open spec fn registry_error() -> ErrorView {
    error::ssh_error(
        "TUNNEL-REGISTRY-UNAVAILABLE"@,
        "隧道服务暂时不可用"@,
        "tunnel registry lock was poisoned or runtime disappeared"@,
        true,
    )
}

/// The error for a registry that cannot be used any more, or a tunnel that is
/// gone from it.
pub fn registry_unavailable() -> (r: AppError)
    ensures
        r@ == registry_error(),
{
    AppError::ssh(
        "TUNNEL-REGISTRY-UNAVAILABLE",
        "隧道服务暂时不可用",
        "tunnel registry lock was poisoned or runtime disappeared",
        true,
    )
}

/// The error for a connection of a tunnel that broke.
pub fn tunnel_io_error(reason: &str) -> (r: AppError)
    ensures
        r@ == error::ssh_error("TUNNEL-TARGET-FAILED"@, "隧道网络连接中断"@, reason@, true),
{
    AppError::ssh("TUNNEL-TARGET-FAILED", "隧道网络连接中断", reason, true)
}

/// The error for a SOCKS5 request that is not valid.
pub open spec fn tunnel_protocol_fault(details: Seq<char>) -> ErrorView {
    error::ssh_error("PROXY-PROTOCOL-FAILED"@, "动态转发收到无效 SOCKS5 请求"@, details, false)
}

/// The error for a SOCKS5 request that is not valid.
pub fn tunnel_protocol_error(details: &str) -> (r: AppError)
    ensures
        r@ == tunnel_protocol_fault(details@),
{
    AppError::ssh("PROXY-PROTOCOL-FAILED", "动态转发收到无效 SOCKS5 请求", details, false)
}

/// The error for a SOCKS5 request that took too long.
pub fn socks_handshake_timeout() -> (r: AppError)
    ensures
        r@ == tunnel_protocol_fault("SOCKS5 handshake timed out"@),
{
    tunnel_protocol_error("SOCKS5 handshake timed out")
}

/// What a tunnel failed at outside of the registry.
#[derive(Clone, Copy, Debug, PartialEq, Eq, Structural)]
pub enum TunnelFault {
    /// Listening on its address.
    Bind,
    /// Reading the port that it listens on.
    ReadPort,
    /// Taking a connection in.
    Accept,
    /// Reaching its target.
    OpenTarget,
    /// Carrying data.
    Forward,
    /// Having the server listen.
    RemoteListen,
    /// Having the server stop listening.
    RemoteStop,
}

/// The error for what a tunnel failed at.
pub open spec fn tunnel_fault_error(fault: TunnelFault, reason: Seq<char>) -> ErrorView {
    match fault {
        TunnelFault::Bind => error::ssh_error(
            "TUNNEL-BIND-FAILED"@,
            "无法监听指定地址或端口"@,
            reason,
            true,
        ),
        TunnelFault::ReadPort => error::ssh_error(
            "TUNNEL-BIND-FAILED"@,
            "无法读取隧道监听端口"@,
            reason,
            true,
        ),
        TunnelFault::Accept => error::ssh_error(
            "TUNNEL-BIND-FAILED"@,
            "隧道监听器无法接受连接"@,
            reason,
            true,
        ),
        TunnelFault::OpenTarget => error::ssh_error(
            "TUNNEL-TARGET-FAILED"@,
            "SSH 服务器无法连接隧道目标"@,
            reason,
            true,
        ),
        TunnelFault::Forward => error::ssh_error(
            "TUNNEL-TARGET-FAILED"@,
            "隧道数据转发中断"@,
            reason,
            true,
        ),
        TunnelFault::RemoteListen => error::ssh_error(
            "TUNNEL-REMOTE-LISTEN-FAILED"@,
            "服务器拒绝了远程监听请求"@,
            reason,
            true,
        ),
        TunnelFault::RemoteStop => error::ssh_error(
            "TUNNEL-STOP-FAILED"@,
            "无法撤销服务器远程监听"@,
            reason,
            true,
        ),
    }
}

/// The error for what a tunnel failed at.
pub fn tunnel_failed(fault: TunnelFault, reason: &str) -> (r: AppError)
    ensures
        r@ == tunnel_fault_error(fault, reason@),
{
    match fault {
        TunnelFault::Bind => AppError::ssh(
            "TUNNEL-BIND-FAILED",
            "无法监听指定地址或端口",
            reason,
            true,
        ),
        TunnelFault::ReadPort => AppError::ssh(
            "TUNNEL-BIND-FAILED",
            "无法读取隧道监听端口",
            reason,
            true,
        ),
        TunnelFault::Accept => AppError::ssh(
            "TUNNEL-BIND-FAILED",
            "隧道监听器无法接受连接",
            reason,
            true,
        ),
        TunnelFault::OpenTarget => AppError::ssh(
            "TUNNEL-TARGET-FAILED",
            "SSH 服务器无法连接隧道目标",
            reason,
            true,
        ),
        TunnelFault::Forward => AppError::ssh(
            "TUNNEL-TARGET-FAILED",
            "隧道数据转发中断",
            reason,
            true,
        ),
        TunnelFault::RemoteListen => AppError::ssh(
            "TUNNEL-REMOTE-LISTEN-FAILED",
            "服务器拒绝了远程监听请求",
            reason,
            true,
        ),
        TunnelFault::RemoteStop => AppError::ssh(
            "TUNNEL-STOP-FAILED",
            "无法撤销服务器远程监听",
            reason,
            true,
        ),
    }
}

// ---------------------------------------------------------------------------
// Registry
// ---------------------------------------------------------------------------

/// A tunnel of the registry: its state, whether it can still be told to stop, and
/// whether nobody waits for its end yet.
#[derive(Debug)]
pub struct TunnelEntry {
    pub state: TunnelRuntimeState,
    pub cancellable: bool,
    pub unawaited: bool,
}

/// What a [`TunnelEntry`] says.
#[verifier::ext_equal]
pub struct TunnelEntryView {
    pub state: TunnelRuntimeStateView,
    pub cancellable: bool,
    pub unawaited: bool,
}

impl View for TunnelEntry {
    type V = TunnelEntryView;

    open spec fn view(&self) -> TunnelEntryView {
        TunnelEntryView {
            state: self.state@,
            cancellable: self.cancellable,
            unawaited: self.unawaited,
        }
    }
}

impl DeepView for TunnelEntry {
    type V = TunnelEntryView;

    open spec fn deep_view(&self) -> TunnelEntryView {
        self@
    }
}

impl Duplicate for TunnelEntry {
    fn duplicate(&self) -> (r: Self) {
        TunnelEntry {
            state: self.state.duplicate(),
            cancellable: self.cancellable,
            unawaited: self.unawaited,
        }
    }
}

impl Clone for TunnelEntry {
    fn clone(&self) -> (r: Self)
        ensures
            r@ == self@,
    {
        self.duplicate()
    }
}

impl HasId for TunnelEntry {
    open spec fn id_of(item: TunnelEntryView) -> Seq<char> {
        item.state.runtime_id
    }

    fn id(&self) -> (r: &str) {
        self.state.runtime_id.as_str()
    }
}

/// Whether a tunnel starts or runs.
pub open spec fn is_up(status: TunnelStatus) -> bool {
    status == TunnelStatus::Starting || status == TunnelStatus::Running
}

/// Whether a tunnel still holds on to its session.
pub open spec fn is_occupied(status: TunnelStatus) -> bool {
    is_up(status) || status == TunnelStatus::Stopping
}

/// The tunnel of a profile that was started last.
pub open spec fn latest_of(entries: Seq<TunnelEntryView>, profile_id: Seq<char>) -> Option<
    TunnelRuntimeStateView,
>
    decreases entries.len(),
{
    if entries.len() == 0 {
        None
    } else if entries.last().state.profile_id == profile_id {
        Some(entries.last().state)
    } else {
        latest_of(entries.drop_last(), profile_id)
    }
}

/// A tunnel that has just been started.
pub open spec fn started_state(
    session_id: Seq<char>,
    profile: TunnelProfileView,
    runtime_id: Seq<char>,
) -> TunnelRuntimeStateView {
    TunnelRuntimeStateView {
        runtime_id,
        profile_id: profile.id,
        session_id,
        status: TunnelStatus::Starting,
        bound_port: profile.bind_port,
        active_connections: 0,
        bytes_up: 0,
        bytes_down: 0,
        last_error: None,
    }
}

/// What starting a tunnel does: the tunnels afterwards, the state that is
/// reported, and whether a tunnel was started. One that starts or runs is not
/// started again.
pub open spec fn tunnel_started(
    entries: Seq<TunnelEntryView>,
    session_id: Seq<char>,
    profile: TunnelProfileView,
    runtime_id: Seq<char>,
) -> (Seq<TunnelEntryView>, TunnelRuntimeStateView, bool) {
    let state = started_state(session_id, profile, runtime_id);
    let after = lists::others::<TunnelEntry>(entries, runtime_id).push(
        TunnelEntryView { state, cancellable: true, unawaited: true },
    );
    match latest_of(entries, profile.id) {
        Some(known) => if is_up(known.status) {
            (entries, known, false)
        } else {
            (after, state, true)
        },
        None => (after, state, true),
    }
}

/// An entry once its tunnel is told to stop.
pub open spec fn told_to_stop(entry: TunnelEntryView) -> TunnelEntryView {
    if entry.cancellable {
        TunnelEntryView {
            state: TunnelRuntimeStateView { status: TunnelStatus::Stopping, ..entry.state },
            cancellable: false,
            ..entry
        }
    } else {
        entry
    }
}

/// The error for a tunnel that is not there.
pub open spec fn tunnel_not_found_error(runtime_id: Seq<char>) -> ErrorView {
    error::ssh_error(
        "TUNNEL-NOT-FOUND"@,
        "运行中的隧道不存在"@,
        "tunnel runtime "@ + runtime_id + " was not found"@,
        false,
    )
}

/// The place of a tunnel.
pub open spec fn tunnel_at(entries: Seq<TunnelEntryView>, runtime_id: Seq<char>) -> int {
    lists::place_of::<TunnelEntry>(entries, runtime_id)
}

/// The tunnels with the entry at a place replaced.
pub open spec fn with_entry(
    entries: Seq<TunnelEntryView>,
    runtime_id: Seq<char>,
    entry: TunnelEntryView,
) -> Seq<TunnelEntryView> {
    entries.update(tunnel_at(entries, runtime_id), entry)
}

/// What stopping a tunnel does: the tunnels afterwards, the state that is
/// reported, and whether the tunnel is told.
pub open spec fn tunnel_stopped(entries: Seq<TunnelEntryView>, runtime_id: Seq<char>) -> Result<
    (Seq<TunnelEntryView>, (TunnelRuntimeStateView, bool)),
    ErrorView,
> {
    let at = tunnel_at(entries, runtime_id);
    if at >= entries.len() {
        Err(tunnel_not_found_error(runtime_id))
    } else {
        let entry = told_to_stop(entries[at]);
        Ok((with_entry(entries, runtime_id, entry), (entry.state, entries[at].cancellable)))
    }
}

/// The tunnels once one runs.
pub open spec fn tunnel_running(
    entries: Seq<TunnelEntryView>,
    runtime_id: Seq<char>,
    port: u16,
) -> Result<(Seq<TunnelEntryView>, TunnelRuntimeStateView), ErrorView> {
    let at = tunnel_at(entries, runtime_id);
    if at >= entries.len() {
        Err(registry_error())
    } else {
        let state = TunnelRuntimeStateView {
            status: TunnelStatus::Running,
            bound_port: port,
            ..entries[at].state
        };
        Ok(
            (
                with_entry(entries, runtime_id, TunnelEntryView { state, ..entries[at] }),
                state,
            ),
        )
    }
}

/// An entry once its tunnel has ended.
pub open spec fn ended(entry: TunnelEntryView, error: Option<ErrorView>) -> TunnelEntryView {
    TunnelEntryView {
        state: match error {
            None => TunnelRuntimeStateView { status: TunnelStatus::Stopped, ..entry.state },
            Some(error) => TunnelRuntimeStateView {
                status: TunnelStatus::Failed,
                last_error: Some(error.code + ": "@ + error.message),
                ..entry.state
            },
        },
        cancellable: false,
        ..entry
    }
}

/// An entry once a connection came in.
pub open spec fn carrying(entry: TunnelEntryView) -> TunnelEntryView {
    TunnelEntryView {
        state: TunnelRuntimeStateView {
            active_connections: wrapping_add_u32(entry.state.active_connections, 1),
            ..entry.state
        },
        ..entry
    }
}

/// An entry once a connection is over that carried so many bytes.
pub open spec fn carried(entry: TunnelEntryView, up: u64, down: u64) -> TunnelEntryView {
    TunnelEntryView {
        state: TunnelRuntimeStateView {
            active_connections: wrapping_add_u32(entry.state.active_connections, u32::MAX),
            bytes_up: wrapping_add_u64(entry.state.bytes_up, up),
            bytes_down: wrapping_add_u64(entry.state.bytes_down, down),
            ..entry.state
        },
        ..entry
    }
}

/// A sum that starts again at zero where it is too large.
pub open spec fn wrapping_add_u32(a: u32, b: u32) -> u32 {
    if a + b > u32::MAX {
        (a + b - u32::MAX - 1) as u32
    } else {
        (a + b) as u32
    }
}

/// A sum that starts again at zero where it is too large.
pub open spec fn wrapping_add_u64(a: u64, b: u64) -> u64 {
    if a + b > u64::MAX {
        (a + b - u64::MAX - 1) as u64
    } else {
        (a + b) as u64
    }
}

/// The ids of the tunnels for which something holds.
pub open spec fn ids_where(entries: Seq<TunnelEntryView>, holds: spec_fn(TunnelEntryView) -> bool) -> Seq<
    Seq<char>,
>
    decreases entries.len(),
{
    if entries.len() == 0 {
        Seq::empty()
    } else {
        let front = ids_where(entries.drop_last(), holds);
        if holds(entries.last()) {
            front.push(entries.last().state.runtime_id)
        } else {
            front
        }
    }
}

/// Tunnels that are told to stop, and those whose end is waited for.
#[derive(Debug)]
pub struct StoppedTunnels {
    pub cancelled: Vec<String>,
    pub awaited: Vec<String>,
}

/// What a [`StoppedTunnels`] says.
#[verifier::ext_equal]
pub struct StoppedTunnelsView {
    pub cancelled: Seq<Seq<char>>,
    pub awaited: Seq<Seq<char>>,
}

impl View for StoppedTunnels {
    type V = StoppedTunnelsView;

    open spec fn view(&self) -> StoppedTunnelsView {
        StoppedTunnelsView {
            cancelled: self.cancelled.deep_view(),
            awaited: self.awaited.deep_view(),
        }
    }
}

impl DeepView for StoppedTunnels {
    type V = StoppedTunnelsView;

    open spec fn deep_view(&self) -> StoppedTunnelsView {
        self@
    }
}

impl Duplicate for StoppedTunnels {
    fn duplicate(&self) -> (r: Self) {
        StoppedTunnels {
            cancelled: clone_texts(&self.cancelled),
            awaited: clone_texts(&self.awaited),
        }
    }
}

impl Clone for StoppedTunnels {
    fn clone(&self) -> (r: Self)
        ensures
            r@ == self@,
    {
        self.duplicate()
    }
}

/// The tunnels that run or ran, in the order in which they were started.
pub struct TunnelRegistry {
    entries: Vec<TunnelEntry>,
}

impl View for TunnelRegistry {
    type V = Seq<TunnelEntryView>;

    closed spec fn view(&self) -> Seq<TunnelEntryView> {
        self.entries.deep_view()
    }
}

impl TunnelRegistry {
    /// A registry without tunnels.
    pub fn new() -> (r: Self)
        ensures
            r@ == Seq::<TunnelEntryView>::empty(),
    {
        let r = TunnelRegistry { entries: Vec::new() };
        assert(r@ =~= Seq::empty());
        r
    }

    /// Starts the tunnel of a profile under an id, unless it starts or runs
    /// already. The second part says whether a tunnel was started.
    pub fn start_at(&mut self, session_id: &str, profile: &TunnelProfile, runtime_id: String) -> (r: (
        TunnelRuntimeState,
        bool,
    ))
        ensures
            (final(self)@, r.0@, r.1) == tunnel_started(
                old(self)@,
                session_id@,
                profile@,
                runtime_id@,
            ),
    {
        match self.by_profile(profile.id.as_str()) {
            Some(state) => {
                if state.status == TunnelStatus::Starting || state.status == TunnelStatus::Running {
                    return (state, false);
                }
            },
            None => {},
        }
        remove_id(&mut self.entries, runtime_id.as_str());
        let state = TunnelRuntimeState {
            runtime_id,
            profile_id: profile.id.clone(),
            session_id: session_id.to_owned(),
            status: TunnelStatus::Starting,
            bound_port: profile.bind_port,
            active_connections: 0,
            bytes_up: 0,
            bytes_down: 0,
            last_error: None,
        };
        let entry = TunnelEntry { state: state.duplicate(), cancellable: true, unawaited: true };
        let ghost done = self@;
        let ghost one = entry@;
        self.entries.push(entry);
        assert(self@ =~= done.push(one));
        (state, true)
    }

    /// Starts the tunnel of a profile, unless it starts or runs already.
    pub fn start(&mut self, session_id: &str, profile: &TunnelProfile) -> (r: (
        TunnelRuntimeState,
        bool,
    ))
        ensures
            exists|runtime_id: Seq<char>|
                outside::is_id_text(runtime_id) && (final(self)@, r.0@, r.1) == #[trigger] tunnel_started(
                    old(self)@,
                    session_id@,
                    profile@,
                    runtime_id,
                ),
    {
        self.start_at(session_id, profile, new_id())
    }

    /// The states of all tunnels.
    pub fn list(&self) -> (r: Vec<TunnelRuntimeState>)
        ensures
            r.deep_view() == Seq::new(self@.len(), |i: int| self@[i].state),
    {
        let mut r: Vec<TunnelRuntimeState> = Vec::new();
        let mut i: usize = 0;
        while i < self.entries.len()
            invariant
                i <= self.entries@.len(),
                r@.len() == i,
                forall|j: int| 0 <= j < i ==> (#[trigger] r@[j])@ == self@[j].state,
            decreases self.entries@.len() - i,
        {
            r.push(self.entries[i].state.duplicate());
            i = i + 1;
        }
        assert(r.deep_view() =~= Seq::new(self@.len(), |i: int| self@[i].state));
        r
    }

    /// The tunnel of a profile that was started last.
    pub fn by_profile(&self, profile_id: &str) -> (r: Option<TunnelRuntimeState>)
        ensures
            r.deep_view() == latest_of(self@, profile_id@),
    {
        let mut i: usize = self.entries.len();
        assert(self@.take(i as int) =~= self@);
        while i > 0
            invariant
                i <= self.entries@.len(),
                latest_of(self@, profile_id@) == latest_of(self@.take(i as int), profile_id@),
            decreases i,
        {
            proof {
                assert(self@.take(i as int).drop_last() =~= self@.take(i - 1));
                assert(self@.take(i as int).last() == self.entries@[i - 1]@);
            }
            i = i - 1;
            if same(self.entries[i].state.profile_id.as_str(), profile_id) {
                return Some(self.entries[i].state.duplicate());
            }
        }
        None
    }

    /// Whether a tunnel still holds on to a session.
    pub fn has_active_session(&self, session_id: &str) -> (r: bool)
        ensures
            r == (exists|i: int|
                0 <= i < self@.len() && (#[trigger] self@[i]).state.session_id == session_id@
                    && is_occupied(self@[i].state.status)),
    {
        let mut i: usize = 0;
        while i < self.entries.len()
            invariant
                i <= self.entries@.len(),
                forall|j: int|
                    0 <= j < i ==> (#[trigger] self@[j]).state.session_id != session_id@
                        || !is_occupied(self@[j].state.status),
            decreases self.entries@.len() - i,
        {
            assert(self@[i as int] == self.entries@[i as int]@);
            let state = &self.entries[i].state;
            if same(state.session_id.as_str(), session_id) && (state.status
                == TunnelStatus::Starting || state.status == TunnelStatus::Running || state.status
                == TunnelStatus::Stopping) {
                return true;
            }
            i = i + 1;
        }
        false
    }

    /// Puts an entry at a place.
    fn put(&mut self, at: usize, entry: TunnelEntry)
        requires
            at < old(self)@.len(),
        ensures
            final(self)@ == old(self)@.update(at as int, entry@),
    {
        let ghost before = self@;
        let ghost one = entry@;
        self.entries.set(at, entry);
        assert(self@ =~= before.update(at as int, one));
    }

    /// Stops a tunnel. The second part says whether the tunnel is told now; it is
    /// told once.
    pub fn stop(&mut self, runtime_id: &str) -> (r: Result<(TunnelRuntimeState, bool), AppError>)
        ensures
            error::changes_as(old(self)@, final(self)@, r, tunnel_stopped(old(self)@, runtime_id@)),
    {
        match index_of(&self.entries, runtime_id) {
            None => Err(
                AppError::ssh(
                    "TUNNEL-NOT-FOUND",
                    "运行中的隧道不存在",
                    cat3("tunnel runtime ", runtime_id, " was not found").as_str(),
                    false,
                ),
            ),
            Some(at) => {
                let mut entry = self.entries[at].duplicate();
                let told = entry.cancellable;
                if entry.cancellable {
                    entry.state.status = TunnelStatus::Stopping;
                    entry.cancellable = false;
                }
                let state = entry.state.duplicate();
                self.put(at, entry);
                Ok((state, told))
            },
        }
    }

    /// Stops all tunnels, and says which are told now and whose end is waited
    /// for.
    pub fn stop_all_bounded(&mut self) -> (r: StoppedTunnels)
        ensures
            final(self)@ == Seq::new(
                old(self)@.len(),
                |i: int| TunnelEntryView { unawaited: false, ..told_to_stop(old(self)@[i]) },
            ),
            r@.cancelled == ids_where(old(self)@, |e: TunnelEntryView| e.cancellable),
            r@.awaited == ids_where(old(self)@, |e: TunnelEntryView| e.unawaited),
    {
        let ghost before = self@;
        let ghost cancels = |e: TunnelEntryView| e.cancellable;
        let ghost waits = |e: TunnelEntryView| e.unawaited;
        let mut cancelled: Vec<String> = Vec::new();
        let mut awaited: Vec<String> = Vec::new();
        let mut i: usize = 0;
        proof {
            assert(before.take(0) =~= Seq::empty());
            assert(cancelled.deep_view() =~= Seq::empty());
            assert(awaited.deep_view() =~= Seq::empty());
        }
        while i < self.entries.len()
            invariant
                i <= self@.len(),
                self@.len() == before.len(),
                forall|j: int|
                    0 <= j < i ==> #[trigger] self@[j] == (TunnelEntryView {
                        unawaited: false,
                        ..told_to_stop(before[j])
                    }),
                forall|j: int| i <= j < before.len() ==> #[trigger] self@[j] == before[j],
                cancelled.deep_view() == ids_where(before.take(i as int), cancels),
                awaited.deep_view() == ids_where(before.take(i as int), waits),
            decreases before.len() - i,
        {
            let ghost told = cancelled.deep_view();
            let ghost held = awaited.deep_view();
            let mut entry = self.entries[i].duplicate();
            proof {
                assert(self@[i as int] == self.entries@[i as int]@);
                assert(before.take(i + 1).drop_last() =~= before.take(i as int));
                assert(before.take(i + 1).last() == entry@);
            }
            let ghost id = entry@.state.runtime_id;
            if entry.cancellable {
                entry.state.status = TunnelStatus::Stopping;
                entry.cancellable = false;
                cancelled.push(entry.state.runtime_id.clone());
                assert(cancelled.deep_view() =~= told.push(id));
            }
            if entry.unawaited {
                entry.unawaited = false;
                awaited.push(entry.state.runtime_id.clone());
                assert(awaited.deep_view() =~= held.push(id));
            }
            self.put(i, entry);
            i = i + 1;
        }
        proof {
            assert(before.take(i as int) =~= before);
            assert(self@ =~= Seq::new(
                before.len(),
                |i: int| TunnelEntryView { unawaited: false, ..told_to_stop(before[i]) },
            ));
        }
        StoppedTunnels { cancelled, awaited }
    }

    /// Takes in that a tunnel listens on a port, and gives its state.
    pub fn set_running(&mut self, runtime_id: &str, port: u16) -> (r: Result<
        TunnelRuntimeState,
        AppError,
    >)
        ensures
            error::changes_as(old(self)@, final(self)@, r, tunnel_running(old(self)@, runtime_id@, port)),
    {
        match index_of(&self.entries, runtime_id) {
            None => Err(registry_unavailable()),
            Some(at) => {
                let mut entry = self.entries[at].duplicate();
                entry.state.status = TunnelStatus::Running;
                entry.state.bound_port = port;
                let state = entry.state.duplicate();
                self.put(at, entry);
                Ok(state)
            },
        }
    }

    /// Takes in that a tunnel has ended, and gives its state.
    pub fn finish(&mut self, runtime_id: &str, result: Result<(), AppError>) -> (r: Option<
        TunnelRuntimeState,
    >)
        ensures
            ({
                let at = tunnel_at(old(self)@, runtime_id@);
                if at >= old(self)@.len() {
                    r is None && final(self)@ == old(self)@
                } else {
                    let entry = ended(old(self)@[at], error::error_of(result));
                    final(self)@ == with_entry(old(self)@, runtime_id@, entry) && r.deep_view()
                        == Some(entry.state)
                }
            }),
            final(self)@ == tunnel_finished(old(self)@, runtime_id@, error::error_of(result)),
    {
        match index_of(&self.entries, runtime_id) {
            None => None,
            Some(at) => {
                let mut entry = self.entries[at].duplicate();
                entry.cancellable = false;
                match result {
                    Ok(()) => {
                        entry.state.status = TunnelStatus::Stopped;
                    },
                    Err(error) => {
                        entry.state.status = TunnelStatus::Failed;
                        entry.state.last_error = Some(
                            cat3(error.code, ": ", error.message.as_str()),
                        );
                    },
                }
                let state = entry.state.duplicate();
                self.put(at, entry);
                Some(state)
            },
        }
    }

    /// Counts a connection that came in.
    pub fn connection_opened(&mut self, runtime_id: &str)
        ensures
            ({
                let at = tunnel_at(old(self)@, runtime_id@);
                if at >= old(self)@.len() {
                    final(self)@ == old(self)@
                } else {
                    final(self)@ == with_entry(old(self)@, runtime_id@, carrying(old(self)@[at]))
                }
            }),
    {
        match index_of(&self.entries, runtime_id) {
            None => {},
            Some(at) => {
                let mut entry = self.entries[at].duplicate();
                entry.state.active_connections = entry.state.active_connections.wrapping_add(1);
                self.put(at, entry);
            },
        }
    }

    /// Counts a connection that is over, and what it carried.
    pub fn connection_closed(&mut self, runtime_id: &str, up: u64, down: u64)
        ensures
            ({
                let at = tunnel_at(old(self)@, runtime_id@);
                if at >= old(self)@.len() {
                    final(self)@ == old(self)@
                } else {
                    final(self)@ == with_entry(
                        old(self)@,
                        runtime_id@,
                        carried(old(self)@[at], up, down),
                    )
                }
            }),
    {
        match index_of(&self.entries, runtime_id) {
            None => {},
            Some(at) => {
                let mut entry = self.entries[at].duplicate();
                entry.state.active_connections = entry.state.active_connections.wrapping_add(
                    u32::MAX,
                );
                entry.state.bytes_up = entry.state.bytes_up.wrapping_add(up);
                entry.state.bytes_down = entry.state.bytes_down.wrapping_add(down);
                self.put(at, entry);
            },
        }
    }
}

// ---------------------------------------------------------------------------
// Listeners
// ---------------------------------------------------------------------------

/// The connections that a tunnel carries at the moment.
pub struct ConnectionSlots {
    used: usize,
}

impl View for ConnectionSlots {
    type V = int;

    closed spec fn view(&self) -> int {
        self.used as int
    }
}

impl ConnectionSlots {
    /// A tunnel without connections.
    pub fn new() -> (r: Self)
        ensures
            r@ == 0,
    {
        ConnectionSlots { used: 0 }
    }

    /// Takes a connection in where there is room for it. One for which there is
    /// none is dropped.
    pub fn try_acquire(&mut self) -> (r: bool)
        requires
            0 <= old(self)@ <= MAX_TUNNEL_CONNECTIONS,
        ensures
            r == (old(self)@ < MAX_TUNNEL_CONNECTIONS),
            final(self)@ == (if r {
                old(self)@ + 1
            } else {
                old(self)@
            }),
            final(self)@ <= MAX_TUNNEL_CONNECTIONS,
    {
        if self.used < MAX_TUNNEL_CONNECTIONS {
            self.used = self.used + 1;
            return true;
        }
        false
    }

    /// Makes room after a connection is over.
    pub fn release(&mut self)
        requires
            0 < old(self)@,
        ensures
            final(self)@ == old(self)@ - 1,
    {
        self.used = self.used - 1;
    }
}

/// Where a connection goes.
#[derive(Debug)]
pub struct ForwardTarget {
    pub host: String,
    pub port: u16,
}

/// What a [`ForwardTarget`] says.
#[verifier::ext_equal]
pub struct ForwardTargetView {
    pub host: Seq<char>,
    pub port: u16,
}

impl View for ForwardTarget {
    type V = ForwardTargetView;

    open spec fn view(&self) -> ForwardTargetView {
        ForwardTargetView {
            host: self.host@,
            port: self.port,
        }
    }
}

impl DeepView for ForwardTarget {
    type V = ForwardTargetView;

    open spec fn deep_view(&self) -> ForwardTargetView {
        self@
    }
}

impl Duplicate for ForwardTarget {
    fn duplicate(&self) -> (r: Self) {
        ForwardTarget {
            host: self.host.clone(),
            port: self.port,
        }
    }
}

impl Clone for ForwardTarget {
    fn clone(&self) -> (r: Self)
        ensures
            r@ == self@,
    {
        self.duplicate()
    }
}

/// What a tunnel does with a connection that comes in.
#[derive(Debug)]
pub enum TunnelRole {
    /// It is carried to the target.
    Bridge(ForwardTarget),
    /// It says where it goes.
    Socks,
    /// Nothing comes in here.
    Idle,
}

/// What a [`TunnelRole`] says.
#[verifier::ext_equal]
pub enum TunnelRoleView {
    Bridge(ForwardTargetView),
    Socks,
    Idle,
}

impl View for TunnelRole {
    type V = TunnelRoleView;

    open spec fn view(&self) -> TunnelRoleView {
        match self {
            TunnelRole::Bridge(target) => TunnelRoleView::Bridge(target@),
            TunnelRole::Socks => TunnelRoleView::Socks,
            TunnelRole::Idle => TunnelRoleView::Idle,
        }
    }
}

/// The target of a profile, empty where it has none.
pub open spec fn profile_target(profile: TunnelProfileView) -> ForwardTargetView {
    ForwardTargetView {
        host: match profile.target_host {
            Some(host) => host,
            None => Seq::empty(),
        },
        port: match profile.target_port {
            Some(port) => port,
            None => 0,
        },
    }
}

/// The target of a profile, empty where it has none.
pub fn forward_target(profile: &TunnelProfile) -> (r: ForwardTarget)
    ensures
        r@ == profile_target(profile@),
{
    let host = match &profile.target_host {
        Some(host) => host.clone(),
        None => String::new(),
    };
    let port: u16 = match profile.target_port {
        Some(port) => port,
        None => 0,
    };
    let r = ForwardTarget { host, port };
    assert(r@.host =~= profile_target(profile@).host);
    r
}

/// What a tunnel does with a connection that comes in.
pub fn tunnel_role(profile: &TunnelProfile) -> (r: TunnelRole)
    ensures
        r@ == role_of(profile@),
{
    match profile.kind {
        TunnelKind::Local => TunnelRole::Bridge(forward_target(profile)),
        TunnelKind::Dynamic => TunnelRole::Socks,
        TunnelKind::Remote => TunnelRole::Idle,
    }
}

/// The port that a server listens on, given the one that was asked for and the
/// one that it answered.
pub open spec fn listening_port(wanted: u16, answered: u32) -> Result<u16, ErrorView> {
    if wanted != 0 {
        Ok(wanted)
    } else if answered <= u16::MAX {
        Ok(answered as u16)
    } else {
        Err(
            error::ssh_error(
                "TUNNEL-REMOTE-LISTEN-FAILED"@,
                "服务器返回了无效的远程监听端口"@,
                "remote forwarding returned port "@ + text::decimal(answered as nat),
                false,
            ),
        )
    }
}

/// The port that a server listens on, given the one that was asked for and the
/// one that it answered. Only where any port was asked for does the answer count.
pub fn remote_bound_port(wanted: u16, answered: u32) -> (r: Result<u16, AppError>)
    ensures
        match (r, listening_port(wanted, answered)) {
            (Ok(port), Ok(expected)) => port == expected,
            (Err(error), Err(expected)) => error@ == expected,
            _ => false,
        },
{
    if wanted != 0 {
        return Ok(wanted);
    }
    if answered <= u16::MAX as u32 {
        return Ok(answered as u16);
    }
    Err(
        AppError::ssh(
            "TUNNEL-REMOTE-LISTEN-FAILED",
            "服务器返回了无效的远程监听端口",
            cat2("remote forwarding returned port ", decimal_text(answered as u64).as_str()).as_str(),
            false,
        ),
    )
}

/// A port of a server whose connections a tunnel carries.
#[derive(Debug)]
pub struct RemoteForward {
    pub host: String,
    pub port: u32,
    pub target: ForwardTarget,
    pub runtime_id: String,
}

/// What a [`RemoteForward`] says.
#[verifier::ext_equal]
pub struct RemoteForwardView {
    pub host: Seq<char>,
    pub port: u32,
    pub target: ForwardTargetView,
    pub runtime_id: Seq<char>,
}

impl View for RemoteForward {
    type V = RemoteForwardView;

    open spec fn view(&self) -> RemoteForwardView {
        RemoteForwardView {
            host: self.host@,
            port: self.port,
            target: self.target@,
            runtime_id: self.runtime_id@,
        }
    }
}

impl DeepView for RemoteForward {
    type V = RemoteForwardView;

    open spec fn deep_view(&self) -> RemoteForwardView {
        self@
    }
}

impl Duplicate for RemoteForward {
    fn duplicate(&self) -> (r: Self) {
        RemoteForward {
            host: self.host.clone(),
            port: self.port,
            target: self.target.duplicate(),
            runtime_id: self.runtime_id.clone(),
        }
    }
}

impl Clone for RemoteForward {
    fn clone(&self) -> (r: Self)
        ensures
            r@ == self@,
    {
        self.duplicate()
    }
}

/// The ports without the one at this address.
pub open spec fn forwards_without(
    forwards: Seq<RemoteForwardView>,
    host: Seq<char>,
    port: u32,
) -> Seq<RemoteForwardView>
    decreases forwards.len(),
{
    if forwards.len() == 0 {
        Seq::empty()
    } else {
        let front = forwards_without(forwards.drop_last(), host, port);
        if forwards.last().host == host && forwards.last().port == port {
            front
        } else {
            front.push(forwards.last())
        }
    }
}

/// The first port for which something holds.
pub open spec fn first_forward(
    forwards: Seq<RemoteForwardView>,
    holds: spec_fn(RemoteForwardView) -> bool,
) -> Option<RemoteForwardView>
    decreases forwards.len(),
{
    if forwards.len() == 0 {
        None
    } else {
        match first_forward(forwards.drop_last(), holds) {
            Some(found) => Some(found),
            None => if holds(forwards.last()) {
                Some(forwards.last())
            } else {
                None
            },
        }
    }
}

/// Where a connection goes that came in at an address of the server: the tunnel
/// of that address, or else one of that port.
pub open spec fn forward_for(forwards: Seq<RemoteForwardView>, host: Seq<char>, port: u32) -> Option<
    RemoteForwardView,
> {
    match first_forward(forwards, |f: RemoteForwardView| f.host == host && f.port == port) {
        Some(found) => Some(found),
        None => first_forward(forwards, |f: RemoteForwardView| f.port == port),
    }
}

/// The ports of a server whose connections tunnels carry.
pub struct RemoteForwardTable {
    forwards: Vec<RemoteForward>,
}

impl View for RemoteForwardTable {
    type V = Seq<RemoteForwardView>;

    closed spec fn view(&self) -> Seq<RemoteForwardView> {
        self.forwards.deep_view()
    }
}

impl RemoteForwardTable {
    /// A table without ports.
    pub fn new() -> (r: Self)
        ensures
            r@ == Seq::<RemoteForwardView>::empty(),
    {
        let r = RemoteForwardTable { forwards: Vec::new() };
        assert(r@ =~= Seq::empty());
        r
    }

    /// Takes a port out.
    pub fn remove(&mut self, host: &str, port: u32)
        ensures
            final(self)@ == forwards_without(old(self)@, host@, port),
    {
        let ghost view = self@;
        let mut kept: Vec<RemoteForward> = Vec::new();
        let mut i: usize = 0;
        proof {
            assert(view.take(0) =~= Seq::empty());
            assert(kept.deep_view() =~= Seq::empty());
        }
        while i < self.forwards.len()
            invariant
                i <= self.forwards@.len(),
                self@ == view,
                kept.deep_view() == forwards_without(view.take(i as int), host@, port),
            decreases self.forwards@.len() - i,
        {
            let ghost done = kept.deep_view();
            proof {
                assert(view.take(i + 1).drop_last() =~= view.take(i as int));
                assert(view.take(i + 1).last() == self.forwards@[i as int]@);
            }
            let forward = &self.forwards[i];
            if !(same(forward.host.as_str(), host) && forward.port == port) {
                let copy = forward.duplicate();
                let ghost one = copy@;
                kept.push(copy);
                assert(kept.deep_view() =~= done.push(one));
            }
            i = i + 1;
        }
        assert(view.take(i as int) =~= view);
        self.forwards = kept;
    }

    /// Puts a port in, in place of one at the same address.
    pub fn insert(&mut self, forward: RemoteForward)
        ensures
            final(self)@ == forwards_without(old(self)@, forward@.host, forward@.port).push(forward@),
    {
        self.remove(forward.host.as_str(), forward.port);
        let ghost done = self@;
        let ghost one = forward@;
        self.forwards.push(forward);
        assert(self@ =~= done.push(one));
    }

    /// Where a connection goes that came in at an address of the server. Without
    /// an answer it is refused.
    pub fn lookup(&self, host: &str, port: u32) -> (r: Option<RemoteForward>)
        ensures
            r.deep_view() == forward_for(self@, host@, port),
    {
        let ghost view = self@;
        let ghost exact = |f: RemoteForwardView| f.host == host@ && f.port == port;
        let ghost near = |f: RemoteForwardView| f.port == port;
        let mut other: Option<usize> = None;
        let mut i: usize = 0;
        let mut found: Option<usize> = None;
        assert(view.take(0) =~= Seq::empty());
        while i < self.forwards.len()
            invariant
                i <= self.forwards@.len(),
                match found {
                    Some(at) => at < self.forwards@.len() && first_forward(
                        view.take(i as int),
                        exact,
                    ) == Some(view[at as int]),
                    None => first_forward(view.take(i as int), exact) is None,
                },
                match other {
                    Some(at) => at < self.forwards@.len() && first_forward(
                        view.take(i as int),
                        near,
                    ) == Some(view[at as int]),
                    None => first_forward(view.take(i as int), near) is None,
                },
            decreases self.forwards@.len() - i,
        {
            proof {
                assert(view.take(i + 1).drop_last() =~= view.take(i as int));
                assert(view.take(i + 1).last() == self.forwards@[i as int]@);
                assert(view[i as int] == self.forwards@[i as int]@);
            }
            let forward = &self.forwards[i];
            if forward.port == port {
                if other.is_none() {
                    other = Some(i);
                }
                if found.is_none() && same(forward.host.as_str(), host) {
                    found = Some(i);
                }
            }
            i = i + 1;
        }
        assert(view.take(i as int) =~= view);
        match found {
            Some(at) => Some(self.forwards[at].duplicate()),
            None => match other {
                Some(at) => Some(self.forwards[at].duplicate()),
                None => None,
            },
        }
    }
}

// ---------------------------------------------------------------------------
// Laws
// ---------------------------------------------------------------------------

/// Starting a tunnel twice starts it once: while it starts or runs, the state of
/// the first start is reported and nothing changes.
pub proof fn starting_again_changes_nothing(
    entries: Seq<TunnelEntryView>,
    session_id: Seq<char>,
    profile: TunnelProfileView,
    first_id: Seq<char>,
    other_session: Seq<char>,
    second_id: Seq<char>,
)
    ensures
        ({
            let (after, state, _) = tunnel_started(entries, session_id, profile, first_id);
            tunnel_started(after, other_session, profile, second_id) == (after, state, false)
        }),
{
    let (after, state, started) = tunnel_started(entries, session_id, profile, first_id);
    if started {
        assert(after.last().state == state);
    }
}

/// Replacing an entry by one with the same id leaves it at its place.
proof fn lemma_same_place(
    entries: Seq<TunnelEntryView>,
    runtime_id: Seq<char>,
    entry: TunnelEntryView,
)
    requires
        tunnel_at(entries, runtime_id) < entries.len(),
        entry.state.runtime_id == runtime_id,
    ensures
        tunnel_at(with_entry(entries, runtime_id, entry), runtime_id) == tunnel_at(
            entries,
            runtime_id,
        ),
{
    let at = tunnel_at(entries, runtime_id);
    let after = with_entry(entries, runtime_id, entry);
    lists::lemma_place::<TunnelEntry>(entries, runtime_id);
    lists::lemma_place::<TunnelEntry>(after, runtime_id);
    assert(lists::is_first::<TunnelEntry>(entries, runtime_id, at));
    assert forall|j: int| 0 <= j < at implies TunnelEntry::id_of(#[trigger] after[j])
        != runtime_id by {
        assert(after[j] == entries[j]);
    }
    assert(lists::is_first::<TunnelEntry>(after, runtime_id, at));
}

/// A tunnel is told to stop once: stopping it again reports the same state and
/// changes nothing.
pub proof fn stopping_tells_once(entries: Seq<TunnelEntryView>, runtime_id: Seq<char>)
    ensures
        tunnel_stopped(entries, runtime_id) matches Ok((after, (state, _))) ==> tunnel_stopped(
            after,
            runtime_id,
        ) == Ok::<
            (Seq<TunnelEntryView>, (TunnelRuntimeStateView, bool)),
            ErrorView,
        >((after, (state, false))),
{
    let at = tunnel_at(entries, runtime_id);
    if at < entries.len() {
        lists::lemma_place::<TunnelEntry>(entries, runtime_id);
        let entry = told_to_stop(entries[at]);
        lemma_same_place(entries, runtime_id, entry);
        let after = with_entry(entries, runtime_id, entry);
        assert(after[at] == entry);
        assert(with_entry(after, runtime_id, entry) =~= after);
    }
}

/// A connection that comes in counts until it is over: both together leave the
/// number of connections as it was.
pub proof fn connections_are_counted(entry: TunnelEntryView, up: u64, down: u64)
    ensures
        carried(carrying(entry), up, down).state.active_connections
            == entry.state.active_connections,
{
}

/// The tunnels once one has ended.
pub open spec fn tunnel_finished(
    entries: Seq<TunnelEntryView>,
    runtime_id: Seq<char>,
    error: Option<ErrorView>,
) -> Seq<TunnelEntryView> {
    let at = tunnel_at(entries, runtime_id);
    if at >= entries.len() {
        entries
    } else {
        with_entry(entries, runtime_id, ended(entries[at], error))
    }
}

/// A tunnel that has ended neither starts, runs nor stops: it is stopped where it ended
/// well and failed where it did not, and its last error is then told. It does not hold
/// its session and cannot be told to stop, and what it carried is still known. The other
/// tunnels are left alone.
pub proof fn ended_tunnels_are_down(
    entries: Seq<TunnelEntryView>,
    runtime_id: Seq<char>,
    error: Option<ErrorView>,
)
    requires
        tunnel_at(entries, runtime_id) < entries.len(),
    ensures
        ({
            let at = tunnel_at(entries, runtime_id);
            let before = entries[at].state;
            let after = tunnel_finished(entries, runtime_id, error);
            let entry = after[at];
            &&& after.len() == entries.len()
            &&& 0 <= at
            &&& entry.state.runtime_id == runtime_id
            &&& entry.state.status == if error is None {
                TunnelStatus::Stopped
            } else {
                TunnelStatus::Failed
            }
            &&& !is_up(entry.state.status)
            &&& !is_occupied(entry.state.status)
            &&& !entry.cancellable
            &&& match error {
                None => entry.state.last_error == before.last_error,
                Some(error) => entry.state.last_error == Some(error.code + ": "@ + error.message),
            }
            &&& entry.state.profile_id == before.profile_id
            &&& entry.state.session_id == before.session_id
            &&& entry.state.bound_port == before.bound_port
            &&& entry.state.active_connections == before.active_connections
            &&& entry.state.bytes_up == before.bytes_up
            &&& entry.state.bytes_down == before.bytes_down
            &&& forall|i: int| 0 <= i < entries.len() && i != at ==> #[trigger] after[i] == entries[i]
        }),
{
    lists::lemma_place::<TunnelEntry>(entries, runtime_id);
}

/// The tunnel of a profile that is started last is the last entry with that profile.
proof fn lemma_latest(entries: Seq<TunnelEntryView>, profile_id: Seq<char>)
    ensures
        match latest_of(entries, profile_id) {
            Some(state) => exists|i: int|
                0 <= i < entries.len() && (#[trigger] entries[i]).state == state && state.profile_id
                    == profile_id && forall|j: int|
                    i < j < entries.len() ==> (#[trigger] entries[j]).state.profile_id
                        != profile_id,
            None => forall|j: int|
                0 <= j < entries.len() ==> (#[trigger] entries[j]).state.profile_id != profile_id,
        },
    decreases entries.len(),
{
    if entries.len() > 0 {
        if entries.last().state.profile_id == profile_id {
            assert(entries[entries.len() - 1].state == entries.last().state);
        } else {
            let front = entries.drop_last();
            lemma_latest(front, profile_id);
            match latest_of(front, profile_id) {
                Some(state) => {
                    let i = choose|i: int|
                        0 <= i < front.len() && (#[trigger] front[i]).state == state
                            && state.profile_id == profile_id && forall|j: int|
                            i < j < front.len() ==> (#[trigger] front[j]).state.profile_id
                                != profile_id;
                    assert(entries[i] == front[i]);
                    assert forall|j: int| i < j < entries.len() implies (
                    #[trigger] entries[j]).state.profile_id != profile_id by {
                        if j < front.len() {
                            assert(entries[j] == front[j]);
                        }
                    }
                },
                None => {
                    assert forall|j: int| 0 <= j < entries.len() implies (
                    #[trigger] entries[j]).state.profile_id != profile_id by {
                        if j < front.len() {
                            assert(entries[j] == front[j]);
                        }
                    }
                },
            }
        }
    }
}

/// The tunnel of a profile that is reported is the one of its tunnels that was started
/// last, and there is none only where the profile has no tunnel.
pub proof fn latest_tunnel_is_reported(entries: Seq<TunnelEntryView>, profile_id: Seq<char>)
    ensures
        match latest_of(entries, profile_id) {
            Some(state) => exists|i: int|
                0 <= i < entries.len() && (#[trigger] entries[i]).state == state && state.profile_id
                    == profile_id && forall|j: int|
                    i < j < entries.len() ==> (#[trigger] entries[j]).state.profile_id
                        != profile_id,
            None => forall|j: int|
                0 <= j < entries.len() ==> (#[trigger] entries[j]).state.profile_id != profile_id,
        },
{
    lemma_latest(entries, profile_id);
}

/// A tunnel is started if and only if the one of its profile that was started last does
/// not start or run. It starts for the session and with the port that were asked for,
/// with nothing carried yet, can be told to stop, and is the one that is reported for its
/// profile from then on.
pub proof fn tunnels_start_as_asked(
    entries: Seq<TunnelEntryView>,
    session_id: Seq<char>,
    profile: TunnelProfileView,
    runtime_id: Seq<char>,
)
    ensures
        ({
            let known = latest_of(entries, profile.id);
            let (after, state, started) = tunnel_started(entries, session_id, profile, runtime_id);
            let running = known matches Some(one) && (one.status == TunnelStatus::Starting
                || one.status == TunnelStatus::Running);
            &&& started == !running
            &&& !started ==> after == entries && Some(state) == known
            &&& started ==> {
                &&& state.runtime_id == runtime_id
                &&& state.profile_id == profile.id
                &&& state.session_id == session_id
                &&& state.status == TunnelStatus::Starting
                &&& state.bound_port == profile.bind_port
                &&& state.active_connections == 0
                &&& state.bytes_up == 0
                &&& state.bytes_down == 0
                &&& state.last_error is None
                &&& after.last().state == state
                &&& after.last().cancellable
                &&& after.last().unawaited
                &&& latest_of(after, profile.id) == Some(state)
            }
        }),
{
}

/// After a tunnel has ended, starting its profile starts a new one, where it was the one
/// that was started last.
pub proof fn ended_tunnels_start_again(
    entries: Seq<TunnelEntryView>,
    runtime_id: Seq<char>,
    error: Option<ErrorView>,
    session_id: Seq<char>,
    profile: TunnelProfileView,
    new_id: Seq<char>,
)
    requires
        tunnel_at(entries, runtime_id) < entries.len(),
        entries[tunnel_at(entries, runtime_id)].state.profile_id == profile.id,
        forall|j: int|
            tunnel_at(entries, runtime_id) < j < entries.len() ==> (
            #[trigger] entries[j]).state.profile_id != profile.id,
    ensures
        ({
            let after = tunnel_finished(entries, runtime_id, error);
            let (_, state, started) = tunnel_started(after, session_id, profile, new_id);
            started && state.runtime_id == new_id && state.session_id == session_id
        }),
{
    let at = tunnel_at(entries, runtime_id);
    let after = tunnel_finished(entries, runtime_id, error);
    ended_tunnels_are_down(entries, runtime_id, error);
    lemma_latest(after, profile.id);
    assert(after[at].state.profile_id == profile.id);
    let state = latest_of(after, profile.id)->0;
    let i = choose|i: int|
        0 <= i < after.len() && (#[trigger] after[i]).state == state && state.profile_id
            == profile.id && forall|j: int|
            i < j < after.len() ==> (#[trigger] after[j]).state.profile_id != profile.id;
    if i > at {
        assert(after[i] == entries[i]);
    }
}

/// A tunnel that listens runs on the port on which it listens; everything else of it and
/// the other tunnels stay as they are. One that is not known is not made.
pub proof fn listening_tunnels_run(
    entries: Seq<TunnelEntryView>,
    runtime_id: Seq<char>,
    port: u16,
)
    ensures
        match tunnel_running(entries, runtime_id, port) {
            Ok((after, state)) => {
                let at = tunnel_at(entries, runtime_id);
                &&& 0 <= at < entries.len()
                &&& after.len() == entries.len()
                &&& after[at].state == state
                &&& state.runtime_id == runtime_id
                &&& state.status == TunnelStatus::Running
                &&& state.bound_port == port
                &&& state.profile_id == entries[at].state.profile_id
                &&& state.session_id == entries[at].state.session_id
                &&& state.active_connections == entries[at].state.active_connections
                &&& state.bytes_up == entries[at].state.bytes_up
                &&& state.bytes_down == entries[at].state.bytes_down
                &&& state.last_error == entries[at].state.last_error
                &&& after[at].cancellable == entries[at].cancellable
                &&& after[at].unawaited == entries[at].unawaited
                &&& forall|i: int|
                    0 <= i < entries.len() && i != at ==> #[trigger] after[i] == entries[i]
            },
            Err(_) => forall|i: int|
                0 <= i < entries.len() ==> (#[trigger] entries[i]).state.runtime_id != runtime_id,
        },
{
    lists::lemma_place::<TunnelEntry>(entries, runtime_id);
    assert forall|i: int|
        tunnel_at(entries, runtime_id) >= entries.len() && 0 <= i < entries.len() implies (
    #[trigger] entries[i]).state.runtime_id != runtime_id by {
        assert(TunnelEntry::id_of(entries[i]) == entries[i].state.runtime_id);
    }
}

/// A tunnel that can be told to stop is told, stops and cannot be told again; one that
/// cannot stays as it is. The other tunnels stay as they are, and the error comes only
/// where there is no such tunnel.
pub proof fn stopped_tunnels_stop(entries: Seq<TunnelEntryView>, runtime_id: Seq<char>)
    ensures
        match tunnel_stopped(entries, runtime_id) {
            Ok((after, (state, told))) => {
                let at = tunnel_at(entries, runtime_id);
                &&& 0 <= at < entries.len()
                &&& after.len() == entries.len()
                &&& after[at].state == state
                &&& state.runtime_id == runtime_id
                &&& told == entries[at].cancellable
                &&& !after[at].cancellable
                &&& after[at].unawaited == entries[at].unawaited
                &&& told ==> state == (TunnelRuntimeStateView {
                    status: TunnelStatus::Stopping,
                    ..entries[at].state
                })
                &&& !told ==> state == entries[at].state
                &&& forall|i: int|
                    0 <= i < entries.len() && i != at ==> #[trigger] after[i] == entries[i]
            },
            Err(error) => error.code == "TUNNEL-NOT-FOUND"@ && forall|i: int|
                0 <= i < entries.len() ==> (#[trigger] entries[i]).state.runtime_id != runtime_id,
        },
{
    lists::lemma_place::<TunnelEntry>(entries, runtime_id);
    assert forall|i: int|
        tunnel_at(entries, runtime_id) >= entries.len() && 0 <= i < entries.len() implies (
    #[trigger] entries[i]).state.runtime_id != runtime_id by {
        assert(TunnelEntry::id_of(entries[i]) == entries[i].state.runtime_id);
    }
}

/// A tunnel holds its session while it starts, runs or stops, and starts or runs while
/// it is not told otherwise.
pub proof fn tunnels_hold_their_session_until_they_end(status: TunnelStatus)
    ensures
        is_up(status) <==> status == TunnelStatus::Starting || status == TunnelStatus::Running,
        is_occupied(status) <==> status != TunnelStatus::Stopped && status != TunnelStatus::Failed,
{
}

/// A connection that comes in is one more, and one that is over is one less and adds the
/// bytes that it carried each way; nothing else of the tunnel changes.
pub proof fn carried_bytes_add_up(entry: TunnelEntryView, up: u64, down: u64)
    ensures
        entry.state.active_connections < u32::MAX ==> carrying(entry).state.active_connections
            == entry.state.active_connections + 1,
        entry.state.active_connections > 0 ==> carried(entry, up, down).state.active_connections
            == entry.state.active_connections - 1,
        entry.state.bytes_up + up <= u64::MAX ==> carried(entry, up, down).state.bytes_up
            == entry.state.bytes_up + up,
        entry.state.bytes_down + down <= u64::MAX ==> carried(entry, up, down).state.bytes_down
            == entry.state.bytes_down + down,
        carrying(entry) == (TunnelEntryView {
            state: TunnelRuntimeStateView {
                active_connections: carrying(entry).state.active_connections,
                ..entry.state
            },
            ..entry
        }),
        carried(entry, up, down) == (TunnelEntryView {
            state: TunnelRuntimeStateView {
                active_connections: carried(entry, up, down).state.active_connections,
                bytes_up: carried(entry, up, down).state.bytes_up,
                bytes_down: carried(entry, up, down).state.bytes_down,
                ..entry.state
            },
            ..entry
        }),
{
}

/// The ids of tunnels for which something holds are the ids of those, and of no others.
pub proof fn ids_are_those_of_the_tunnels(
    entries: Seq<TunnelEntryView>,
    holds: spec_fn(TunnelEntryView) -> bool,
    id: Seq<char>,
)
    ensures
        ids_where(entries, holds).contains(id) <==> exists|i: int|
            0 <= i < entries.len() && holds(#[trigger] entries[i]) && entries[i].state.runtime_id
                == id,
    decreases entries.len(),
{
    let ids = ids_where(entries, holds);
    if entries.len() > 0 {
        let front = entries.drop_last();
        let before = ids_where(front, holds);
        ids_are_those_of_the_tunnels(front, holds, id);
        if holds(entries.last()) {
            assert(ids == before.push(entries.last().state.runtime_id));
            if ids.contains(id) {
                let k = choose|k: int| 0 <= k < ids.len() && ids[k] == id;
                if k < before.len() {
                    assert(before[k] == id);
                    let i = choose|i: int|
                        0 <= i < front.len() && holds(#[trigger] front[i])
                            && front[i].state.runtime_id == id;
                    assert(entries[i] == front[i]);
                } else {
                    assert(entries[entries.len() - 1] == entries.last());
                }
            }
        } else if before.contains(id) {
            let i = choose|i: int|
                0 <= i < front.len() && holds(#[trigger] front[i]) && front[i].state.runtime_id
                    == id;
            assert(entries[i] == front[i]);
        }
        if exists|i: int|
            0 <= i < entries.len() && holds(#[trigger] entries[i]) && entries[i].state.runtime_id
                == id {
            let i = choose|i: int|
                0 <= i < entries.len() && holds(#[trigger] entries[i])
                    && entries[i].state.runtime_id == id;
            if i < front.len() {
                assert(front[i] == entries[i]);
                let k = choose|k: int| 0 <= k < before.len() && before[k] == id;
                assert(ids[k] == id);
            } else {
                assert(ids[ids.len() - 1] == id);
            }
        }
    }
}

/// The first port for which something holds is one of the ports, and there is none only
/// where it holds for no port.
proof fn lemma_first_forward(
    forwards: Seq<RemoteForwardView>,
    holds: spec_fn(RemoteForwardView) -> bool,
)
    ensures
        match first_forward(forwards, holds) {
            Some(found) => holds(found) && forwards.contains(found),
            None => forall|i: int| 0 <= i < forwards.len() ==> !holds(#[trigger] forwards[i]),
        },
    decreases forwards.len(),
{
    if forwards.len() > 0 {
        let front = forwards.drop_last();
        lemma_first_forward(front, holds);
        match first_forward(front, holds) {
            Some(found) => {
                let i = choose|i: int| 0 <= i < front.len() && front[i] == found;
                assert(forwards[i] == found);
            },
            None => {
                assert(forwards[forwards.len() - 1] == forwards.last());
                assert forall|i: int|
                    !holds(forwards.last()) && 0 <= i < forwards.len() implies !holds(
                    #[trigger] forwards[i],
                ) by {
                    if i < front.len() {
                        assert(front[i] == forwards[i]);
                    }
                }
            },
        }
    }
}

/// A connection goes to a tunnel of the port at which it came in, and to one of its
/// address where there is one; it is refused only where no tunnel has that port.
pub proof fn connections_go_to_their_port(
    forwards: Seq<RemoteForwardView>,
    host: Seq<char>,
    port: u32,
)
    ensures
        match forward_for(forwards, host, port) {
            Some(found) => {
                &&& found.port == port
                &&& forwards.contains(found)
                &&& found.host != host ==> forall|i: int|
                    0 <= i < forwards.len() ==> (#[trigger] forwards[i]).host != host
                        || forwards[i].port != port
            },
            None => forall|i: int| 0 <= i < forwards.len() ==> (#[trigger] forwards[i]).port != port,
        },
{
    let exact = |f: RemoteForwardView| f.host == host && f.port == port;
    let near = |f: RemoteForwardView| f.port == port;
    lemma_first_forward(forwards, exact);
    lemma_first_forward(forwards, near);
    assert forall|i: int|
        first_forward(forwards, exact) is None && 0 <= i < forwards.len() implies (
    #[trigger] forwards[i]).host != host || forwards[i].port != port by {
        assert(!exact(forwards[i]));
    }
    assert forall|i: int|
        first_forward(forwards, near) is None && 0 <= i < forwards.len() implies (
    #[trigger] forwards[i]).port != port by {
        assert(!near(forwards[i]));
    }
}

/// Taking a port out takes out those at its address, and no others.
pub proof fn removed_ports_are_gone(
    forwards: Seq<RemoteForwardView>,
    host: Seq<char>,
    port: u32,
    forward: RemoteForwardView,
)
    ensures
        forwards_without(forwards, host, port).contains(forward) <==> forwards.contains(forward)
            && !(forward.host == host && forward.port == port),
    decreases forwards.len(),
{
    let kept = forwards_without(forwards, host, port);
    if forwards.len() > 0 {
        let front = forwards.drop_last();
        let before = forwards_without(front, host, port);
        removed_ports_are_gone(front, host, port, forward);
        assert(forwards[forwards.len() - 1] == forwards.last());
        if before.contains(forward) {
            let k = choose|k: int| 0 <= k < before.len() && before[k] == forward;
            assert(kept[k] == forward);
            let i = choose|i: int| 0 <= i < front.len() && front[i] == forward;
            assert(forwards[i] == forward);
        }
        if kept.contains(forward) {
            let k = choose|k: int| 0 <= k < kept.len() && kept[k] == forward;
            if k < before.len() {
                assert(before[k] == forward);
            }
        }
        if forwards.contains(forward) && !(forward.host == host && forward.port == port) {
            let i = choose|i: int| 0 <= i < forwards.len() && forwards[i] == forward;
            if i < front.len() {
                assert(front[i] == forward);
            } else {
                assert(kept[kept.len() - 1] == forward);
            }
        }
    }
}

/// A port that was put in is the one that its address leads to.
pub proof fn inserted_ports_are_found(
    forwards: Seq<RemoteForwardView>,
    forward: RemoteForwardView,
)
    ensures
        forward_for(
            forwards_without(forwards, forward.host, forward.port).push(forward),
            forward.host,
            forward.port,
        ) == Some(forward),
{
    let kept = forwards_without(forwards, forward.host, forward.port);
    let after = kept.push(forward);
    connections_go_to_their_port(after, forward.host, forward.port);
    assert(after[after.len() - 1] == forward);
    let found = forward_for(after, forward.host, forward.port)->0;
    let i = choose|i: int| 0 <= i < after.len() && after[i] == found;
    if i < kept.len() {
        assert(kept[i] == found);
        removed_ports_are_gone(forwards, forward.host, forward.port, found);
    }
}

/// A server listens on the port that was asked for, and on the one that it answered only
/// where any was asked for; the answer is an error only where it is no port.
pub proof fn ports_are_those_asked_for(wanted: u16, answered: u32)
    ensures
        match listening_port(wanted, answered) {
            Ok(port) => if wanted == 0 {
                port == answered
            } else {
                port == wanted
            },
            Err(error) => wanted == 0 && answered > 65535 && error.code
                == "TUNNEL-REMOTE-LISTEN-FAILED"@,
        },
{
}

/// What a tunnel does with a connection that comes in.
pub open spec fn role_of(profile: TunnelProfileView) -> TunnelRoleView {
    match profile.kind {
        TunnelKind::Local => TunnelRoleView::Bridge(profile_target(profile)),
        TunnelKind::Dynamic => TunnelRoleView::Socks,
        TunnelKind::Remote => TunnelRoleView::Idle,
    }
}

/// A local tunnel carries connections to the target of its profile, a dynamic one asks
/// them where they go, and a remote one takes in none here.
pub proof fn tunnels_act_by_their_kind(profile: TunnelProfileView)
    ensures
        role_of(profile) is Bridge <==> profile.kind == TunnelKind::Local,
        role_of(profile) is Socks <==> profile.kind == TunnelKind::Dynamic,
        role_of(profile) is Idle <==> profile.kind == TunnelKind::Remote,
        role_of(profile) matches TunnelRoleView::Bridge(target) ==> target == profile_target(
            profile,
        ),
        match profile.target_host {
            Some(host) => profile_target(profile).host == host,
            None => profile_target(profile).host.len() == 0,
        },
        match profile.target_port {
            Some(port) => profile_target(profile).port == port,
            None => profile_target(profile).port == 0,
        },
{
}

/// What a tunnel fails at is told by a code of its own, with the reason, and as worth
/// another try.
pub proof fn tunnel_faults_have_their_codes(fault: TunnelFault, reason: Seq<char>)
    ensures
        tunnel_fault_error(fault, reason).technical_details == Some(reason),
        tunnel_fault_error(fault, reason).retryable,
        tunnel_fault_error(fault, reason).code == match fault {
            TunnelFault::Bind | TunnelFault::ReadPort | TunnelFault::Accept => {
                "TUNNEL-BIND-FAILED"@
            },
            TunnelFault::OpenTarget | TunnelFault::Forward => "TUNNEL-TARGET-FAILED"@,
            TunnelFault::RemoteListen => "TUNNEL-REMOTE-LISTEN-FAILED"@,
            TunnelFault::RemoteStop => "TUNNEL-STOP-FAILED"@,
        },
        MAX_TUNNEL_CONNECTIONS == 100,
        SOCKS_HANDSHAKE_SECONDS == 10,
{
}

/// The end of a tunnel that is not known changes nothing.
pub proof fn unknown_ends_change_nothing(
    entries: Seq<TunnelEntryView>,
    runtime_id: Seq<char>,
    error: Option<ErrorView>,
)
    requires
        forall|i: int|
            0 <= i < entries.len() ==> (#[trigger] entries[i]).state.runtime_id != runtime_id,
    ensures
        tunnel_finished(entries, runtime_id, error) == entries,
        tunnel_stopped(entries, runtime_id) is Err,
{
    lists::lemma_place::<TunnelEntry>(entries, runtime_id);
    assert forall|i: int| 0 <= i < entries.len() implies TunnelEntry::id_of(#[trigger] entries[i])
        != runtime_id by {
        assert(entries[i].state.runtime_id != runtime_id);
    }
}

/// Sums that start again at zero are those of the numbers as they are kept.
pub proof fn wrapped_sums_keep_the_low_bits(a: u32, b: u32, c: u64, d: u64)
    ensures
        wrapping_add_u32(a, b) == (a + b) % 0x1_0000_0000,
        wrapping_add_u64(c, d) == (c + d) % 0x1_0000_0000_0000_0000,
{
}

} // verus!
