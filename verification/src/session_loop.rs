//! The life of a session: what it does with each request of the user and each
//! message of the server, until it is over.

#![verifier::loop_isolation(false)]

use crate::lists::{self, HasId, index_of, remove_id};
use crate::models::{
    SessionStatus, SessionStatusPayload, SessionStatusPayloadView, TransferConflictPolicy,
    TransferDirection, TransferTask, TransferTaskView, TunnelProfile, TunnelProfileView,
};
use crate::outside::{self, new_id, now};
use crate::terminal::{
    self, SessionEnd, SessionEndView, SessionOutput, disconnected_payload, end_message,
    session_end_report,
};
use crate::transfer::{self, new_transfer_task_at};
use vstd::prelude::*;

verus! {

/// A request that goes to the files of the server.
#[derive(Debug)]
pub enum SftpRequest {
    Browse { path: String, cursor: Option<String> },
    CreateDirectory { parent_path: String, name: String },
    Rename { path: String, new_name: String },
    Delete { paths: Vec<String>, recursive: bool },
    ChangePermissions { paths: Vec<String>, mode: u32, recursive: bool },
}

/// What a [`SftpRequest`] says.
#[verifier::ext_equal]
pub enum SftpRequestView {
    Browse { path: Seq<char>, cursor: Option<Seq<char>> },
    CreateDirectory { parent_path: Seq<char>, name: Seq<char> },
    Rename { path: Seq<char>, new_name: Seq<char> },
    Delete { paths: Seq<Seq<char>>, recursive: bool },
    ChangePermissions { paths: Seq<Seq<char>>, mode: u32, recursive: bool },
}

impl View for SftpRequest {
    type V = SftpRequestView;

    open spec fn view(&self) -> SftpRequestView {
        match self {
            SftpRequest::Browse { path, cursor } => SftpRequestView::Browse {
                path: path@,
                cursor: cursor.deep_view(),
            },
            SftpRequest::CreateDirectory { parent_path, name } => SftpRequestView::CreateDirectory {
                parent_path: parent_path@,
                name: name@,
            },
            SftpRequest::Rename { path, new_name } => SftpRequestView::Rename {
                path: path@,
                new_name: new_name@,
            },
            SftpRequest::Delete { paths, recursive } => SftpRequestView::Delete {
                paths: paths.deep_view(),
                recursive: *recursive,
            },
            SftpRequest::ChangePermissions { paths, mode, recursive } => {
                SftpRequestView::ChangePermissions {
                    paths: paths.deep_view(),
                    mode: *mode,
                    recursive: *recursive,
                }
            },
        }
    }
}

/// A request of the user to a session.
#[derive(Debug)]
pub enum SessionCommand {
    Data(Vec<u8>),
    Resize { columns: u16, rows: u16 },
    Files(SftpRequest),
    StartTransfer {
        direction: TransferDirection,
        sources: Vec<String>,
        target_directory: String,
        conflict_policy: TransferConflictPolicy,
    },
    CancelTransfer { task_id: String },
    StartTunnel(TunnelProfile),
    Close,
}

/// What a [`SessionCommand`] says.
#[verifier::ext_equal]
pub enum SessionCommandView {
    Data(Seq<u8>),
    Resize { columns: u16, rows: u16 },
    Files(SftpRequestView),
    StartTransfer {
        direction: TransferDirection,
        sources: Seq<Seq<char>>,
        target_directory: Seq<char>,
        conflict_policy: TransferConflictPolicy,
    },
    CancelTransfer { task_id: Seq<char> },
    StartTunnel(TunnelProfileView),
    Close,
}

impl View for SessionCommand {
    type V = SessionCommandView;

    open spec fn view(&self) -> SessionCommandView {
        match self {
            SessionCommand::Data(data) => SessionCommandView::Data(data@),
            SessionCommand::Resize { columns, rows } => SessionCommandView::Resize {
                columns: *columns,
                rows: *rows,
            },
            SessionCommand::Files(request) => SessionCommandView::Files(request@),
            SessionCommand::StartTransfer {
                direction,
                sources,
                target_directory,
                conflict_policy,
            } => SessionCommandView::StartTransfer {
                direction: *direction,
                sources: sources.deep_view(),
                target_directory: target_directory@,
                conflict_policy: *conflict_policy,
            },
            SessionCommand::CancelTransfer { task_id } => SessionCommandView::CancelTransfer {
                task_id: task_id@,
            },
            SessionCommand::StartTunnel(profile) => SessionCommandView::StartTunnel(profile@),
            SessionCommand::Close => SessionCommandView::Close,
        }
    }
}

/// A message of the server on the channel of a session.
#[derive(Debug)]
pub enum ChannelMessage {
    Data(Vec<u8>),
    ExitStatus(u32),
    EndOfOutput,
    Closed,
    Lost,
    Other,
}

/// What a [`ChannelMessage`] says.
#[verifier::ext_equal]
pub enum ChannelMessageView {
    Data(Seq<u8>),
    ExitStatus(u32),
    EndOfOutput,
    Closed,
    Lost,
    Other,
}

impl View for ChannelMessage {
    type V = ChannelMessageView;

    open spec fn view(&self) -> ChannelMessageView {
        match self {
            ChannelMessage::Data(data) => ChannelMessageView::Data(data@),
            ChannelMessage::ExitStatus(code) => ChannelMessageView::ExitStatus(*code),
            ChannelMessage::EndOfOutput => ChannelMessageView::EndOfOutput,
            ChannelMessage::Closed => ChannelMessageView::Closed,
            ChannelMessage::Lost => ChannelMessageView::Lost,
            ChannelMessage::Other => ChannelMessageView::Other,
        }
    }
}

/// What happens to a session.
#[derive(Debug)]
pub enum SessionEvent {
    /// The time has come to send on what was gathered.
    Tick,
    /// The user asks for something; `None` where nobody can ask any more.
    Command(Option<SessionCommand>),
    /// A transfer has ended.
    TransferEnded(String),
    /// The server says something.
    Message(ChannelMessage),
    /// Output could not be sent on.
    OutputFailed(String),
    /// Input could not be sent to the server.
    WriteFailed(String),
}

/// What a [`SessionEvent`] says.
#[verifier::ext_equal]
pub enum SessionEventView {
    Tick,
    Command(Option<SessionCommandView>),
    TransferEnded(Seq<char>),
    Message(ChannelMessageView),
    OutputFailed(Seq<char>),
    WriteFailed(Seq<char>),
}

impl View for SessionEvent {
    type V = SessionEventView;

    open spec fn view(&self) -> SessionEventView {
        match self {
            SessionEvent::Tick => SessionEventView::Tick,
            SessionEvent::Command(None) => SessionEventView::Command(None),
            SessionEvent::Command(Some(command)) => SessionEventView::Command(Some(command@)),
            SessionEvent::TransferEnded(id) => SessionEventView::TransferEnded(id@),
            SessionEvent::Message(message) => SessionEventView::Message(message@),
            SessionEvent::OutputFailed(message) => SessionEventView::OutputFailed(message@),
            SessionEvent::WriteFailed(reason) => SessionEventView::WriteFailed(reason@),
        }
    }
}

/// What the caller does.
#[derive(Debug)]
pub enum SessionAction {
    /// Waits for what happens next.
    Wait,
    /// Sends output on to the user.
    Emit(Vec<u8>),
    /// Sends input to the server.
    Write(Vec<u8>),
    /// Tells the server the size of the terminal.
    Resize { columns: u16, rows: u16 },
    /// Hands a request to the files of the server.
    Enqueue(SftpRequest),
    /// Starts a transfer.
    StartTransfer(TransferTask),
    /// Cancels a transfer.
    CancelTransfer(String),
    /// Starts a tunnel.
    StartTunnel(TunnelProfile),
    /// Closes the channel; the session is over.
    CloseChannel,
    /// The session is over.
    Finish,
}

/// What a [`SessionAction`] says.
#[verifier::ext_equal]
pub enum SessionActionView {
    Wait,
    Emit(Seq<u8>),
    Write(Seq<u8>),
    Resize { columns: u16, rows: u16 },
    Enqueue(SftpRequestView),
    StartTransfer(TransferTaskView),
    CancelTransfer(Seq<char>),
    StartTunnel(TunnelProfileView),
    CloseChannel,
    Finish,
}

impl View for SessionAction {
    type V = SessionActionView;

    open spec fn view(&self) -> SessionActionView {
        match self {
            SessionAction::Wait => SessionActionView::Wait,
            SessionAction::Emit(bytes) => SessionActionView::Emit(bytes@),
            SessionAction::Write(bytes) => SessionActionView::Write(bytes@),
            SessionAction::Resize { columns, rows } => SessionActionView::Resize {
                columns: *columns,
                rows: *rows,
            },
            SessionAction::Enqueue(request) => SessionActionView::Enqueue(request@),
            SessionAction::StartTransfer(task) => SessionActionView::StartTransfer(task@),
            SessionAction::CancelTransfer(id) => SessionActionView::CancelTransfer(id@),
            SessionAction::StartTunnel(profile) => SessionActionView::StartTunnel(profile@),
            SessionAction::CloseChannel => SessionActionView::CloseChannel,
            SessionAction::Finish => SessionActionView::Finish,
        }
    }
}

impl HasId for String {
    open spec fn id_of(item: Seq<char>) -> Seq<char> {
        item
    }

    fn id(&self) -> (r: &str) {
        self.as_str()
    }
}

/// A session: what was gathered of its output, the transfers that can be
/// cancelled, and why it is over, where it is.
#[verifier::ext_equal]
pub struct SessionLoopView {
    pub session_id: Seq<char>,
    pub output: Seq<u8>,
    pub transfers: Seq<Seq<char>>,
    pub end: Option<SessionEndView>,
}

/// The session once it is over.
pub open spec fn ended_session(state: SessionLoopView, end: SessionEndView) -> SessionLoopView {
    SessionLoopView { end: Some(end), ..state }
}

/// The action that sends output on.
pub open spec fn emission(chunk: Option<Seq<u8>>) -> SessionActionView {
    match chunk {
        Some(bytes) => SessionActionView::Emit(bytes),
        None => SessionActionView::Wait,
    }
}

/// What a session does with a request of the user.
pub open spec fn on_command(
    state: SessionLoopView,
    command: SessionCommandView,
    new_id: Seq<char>,
    now: Seq<char>,
) -> (SessionLoopView, SessionActionView) {
    match command {
        SessionCommandView::Data(data) => (state, SessionActionView::Write(data)),
        SessionCommandView::Resize { columns, rows } => (
            state,
            SessionActionView::Resize { columns, rows },
        ),
        SessionCommandView::Files(request) => (state, SessionActionView::Enqueue(request)),
        SessionCommandView::StartTransfer {
            direction,
            sources,
            target_directory,
            conflict_policy,
        } => (
            SessionLoopView {
                transfers: lists::others::<String>(state.transfers, new_id).push(new_id),
                ..state
            },
            SessionActionView::StartTransfer(
                transfer::queued_task(
                    state.session_id,
                    direction,
                    sources,
                    target_directory,
                    conflict_policy,
                    new_id,
                    now,
                ),
            ),
        ),
        SessionCommandView::CancelTransfer { task_id } => if lists::has_id::<String>(
            state.transfers,
            task_id,
        ) {
            (
                SessionLoopView {
                    transfers: lists::others::<String>(state.transfers, task_id),
                    ..state
                },
                SessionActionView::CancelTransfer(task_id),
            )
        } else {
            (state, SessionActionView::Wait)
        },
        SessionCommandView::StartTunnel(profile) => (
            state,
            SessionActionView::StartTunnel(profile),
        ),
        SessionCommandView::Close => (
            ended_session(state, SessionEndView::Closed),
            SessionActionView::CloseChannel,
        ),
    }
}

/// What a session does with a message of the server.
pub open spec fn on_message(state: SessionLoopView, message: ChannelMessageView) -> (
    SessionLoopView,
    SessionActionView,
) {
    match message {
        ChannelMessageView::Data(data) => {
            let (kept, chunk) = terminal::gathered(state.output, data);
            (SessionLoopView { output: kept, ..state }, emission(chunk))
        },
        ChannelMessageView::ExitStatus(code) => (
            ended_session(state, SessionEndView::Exited(code)),
            SessionActionView::Finish,
        ),
        ChannelMessageView::EndOfOutput => (
            ended_session(state, SessionEndView::EndOfOutput),
            SessionActionView::Finish,
        ),
        ChannelMessageView::Closed => (
            ended_session(state, SessionEndView::ClosedByServer),
            SessionActionView::Finish,
        ),
        ChannelMessageView::Lost => (
            ended_session(state, SessionEndView::Lost),
            SessionActionView::Finish,
        ),
        ChannelMessageView::Other => (state, SessionActionView::Wait),
    }
}

/// What a session does with what happens. A transfer that starts gets this id, at
/// this time.
pub open spec fn loop_after(
    state: SessionLoopView,
    event: SessionEventView,
    new_id: Seq<char>,
    now: Seq<char>,
) -> (SessionLoopView, SessionActionView) {
    if state.end is Some {
        (state, SessionActionView::Finish)
    } else {
        match event {
            SessionEventView::Tick => {
                let (kept, chunk) = terminal::flushed(state.output);
                (SessionLoopView { output: kept, ..state }, emission(chunk))
            },
            SessionEventView::Command(None) => (
                ended_session(state, SessionEndView::Closed),
                SessionActionView::CloseChannel,
            ),
            SessionEventView::Command(Some(command)) => on_command(state, command, new_id, now),
            SessionEventView::TransferEnded(id) => (
                SessionLoopView { transfers: lists::others::<String>(state.transfers, id), ..state },
                SessionActionView::Wait,
            ),
            SessionEventView::Message(message) => on_message(state, message),
            SessionEventView::OutputFailed(message) => (
                ended_session(state, SessionEndView::OutputFailed(message)),
                SessionActionView::Finish,
            ),
            SessionEventView::WriteFailed(reason) => (
                ended_session(state, SessionEndView::WriteFailed(reason)),
                SessionActionView::Finish,
            ),
        }
    }
}

/// What is left to do when a session is over: the output that is sent on, the
/// transfers that are cancelled, what the user is told, and what is written to the
/// diagnostic log.
#[derive(Debug)]
pub struct SessionEnding {
    pub output: Option<Vec<u8>>,
    pub cancelled: Vec<String>,
    pub payload: SessionStatusPayload,
    pub report: String,
}

/// What a [`SessionEnding`] says.
#[verifier::ext_equal]
pub struct SessionEndingView {
    pub output: Option<Seq<u8>>,
    pub cancelled: Seq<Seq<char>>,
    pub payload: SessionStatusPayloadView,
    pub report: Seq<char>,
}

impl View for SessionEnding {
    type V = SessionEndingView;

    open spec fn view(&self) -> SessionEndingView {
        SessionEndingView {
            output: self.output.deep_view(),
            cancelled: self.cancelled.deep_view(),
            payload: self.payload@,
            report: self.report@,
        }
    }
}

impl DeepView for SessionEnding {
    type V = SessionEndingView;

    open spec fn deep_view(&self) -> SessionEndingView {
        self@
    }
}

/// What is left to do when a session is over.
pub open spec fn ending_of(state: SessionLoopView, end: SessionEndView) -> SessionEndingView {
    let message = terminal::end_message_for(end);
    SessionEndingView {
        output: terminal::flushed(state.output).1,
        cancelled: state.transfers,
        payload: SessionStatusPayloadView {
            session_id: state.session_id,
            status: SessionStatus::Disconnected,
            message: Some(message),
        },
        report: "session="@ + state.session_id + " result="@ + message,
    }
}

/// A running session.
pub struct SessionLoop {
    session_id: String,
    output: SessionOutput,
    transfers: Vec<String>,
    end: Option<SessionEnd>,
}

impl View for SessionLoop {
    type V = SessionLoopView;

    closed spec fn view(&self) -> SessionLoopView {
        SessionLoopView {
            session_id: self.session_id@,
            output: self.output@,
            transfers: self.transfers.deep_view(),
            end: match self.end {
                Some(end) => Some(end@),
                None => None,
            },
        }
    }
}

impl SessionLoop {
    /// A session that has just been started.
    pub fn new(session_id: &str) -> (r: Self)
        ensures
            r@ == (SessionLoopView {
                session_id: session_id@,
                output: Seq::empty(),
                transfers: Seq::empty(),
                end: None,
            }),
    {
        let r = SessionLoop {
            session_id: session_id.to_owned(),
            output: SessionOutput::new(),
            transfers: Vec::new(),
            end: None,
        };
        assert(r@.transfers =~= Seq::empty());
        r
    }

    /// The action that sends output on.
    fn emit(chunk: Option<Vec<u8>>) -> (r: SessionAction)
        ensures
            r@ == emission(
                match chunk {
                    Some(bytes) => Some(bytes@),
                    None => None,
                },
            ),
    {
        match chunk {
            Some(bytes) => SessionAction::Emit(bytes),
            None => SessionAction::Wait,
        }
    }

    /// Deals with a request of the user.
    fn command(&mut self, command: SessionCommand, new_id: String, now: String) -> (r: SessionAction)
        ensures
            (final(self)@, r@) == on_command(old(self)@, command@, new_id@, now@),
    {
        match command {
            SessionCommand::Data(data) => SessionAction::Write(data),
            SessionCommand::Resize { columns, rows } => SessionAction::Resize { columns, rows },
            SessionCommand::Files(request) => SessionAction::Enqueue(request),
            SessionCommand::StartTransfer {
                direction,
                sources,
                target_directory,
                conflict_policy,
            } => {
                remove_id(&mut self.transfers, new_id.as_str());
                let ghost done = self.transfers.deep_view();
                let id = new_id.clone();
                let ghost one = id@;
                self.transfers.push(id);
                assert(self.transfers.deep_view() =~= done.push(one));
                SessionAction::StartTransfer(
                    new_transfer_task_at(
                        self.session_id.as_str(),
                        direction,
                        sources,
                        target_directory,
                        conflict_policy,
                        new_id,
                        now,
                    ),
                )
            },
            SessionCommand::CancelTransfer { task_id } => {
                if index_of(&self.transfers, task_id.as_str()).is_some() {
                    remove_id(&mut self.transfers, task_id.as_str());
                    SessionAction::CancelTransfer(task_id)
                } else {
                    SessionAction::Wait
                }
            },
            SessionCommand::StartTunnel(profile) => SessionAction::StartTunnel(profile),
            SessionCommand::Close => {
                self.end = Some(SessionEnd::Closed);
                SessionAction::CloseChannel
            },
        }
    }

    /// Deals with a message of the server.
    fn message(&mut self, message: ChannelMessage) -> (r: SessionAction)
        ensures
            (final(self)@, r@) == on_message(old(self)@, message@),
    {
        match message {
            ChannelMessage::Data(data) => {
                let chunk = self.output.received(data.as_slice());
                SessionLoop::emit(chunk)
            },
            ChannelMessage::ExitStatus(code) => {
                self.end = Some(SessionEnd::Exited(code));
                SessionAction::Finish
            },
            ChannelMessage::EndOfOutput => {
                self.end = Some(SessionEnd::EndOfOutput);
                SessionAction::Finish
            },
            ChannelMessage::Closed => {
                self.end = Some(SessionEnd::ClosedByServer);
                SessionAction::Finish
            },
            ChannelMessage::Lost => {
                self.end = Some(SessionEnd::Lost);
                SessionAction::Finish
            },
            ChannelMessage::Other => SessionAction::Wait,
        }
    }

    /// Deals with what happens. A transfer that starts gets this id, at this time.
    pub fn handle_at(&mut self, event: SessionEvent, new_id: String, now: String) -> (r:
        SessionAction)
        ensures
            (final(self)@, r@) == loop_after(old(self)@, event@, new_id@, now@),
    {
        if self.end.is_some() {
            return SessionAction::Finish;
        }
        match event {
            SessionEvent::Tick => {
                let chunk = self.output.flush();
                SessionLoop::emit(chunk)
            },
            SessionEvent::Command(None) => {
                self.end = Some(SessionEnd::Closed);
                SessionAction::CloseChannel
            },
            SessionEvent::Command(Some(command)) => self.command(command, new_id, now),
            SessionEvent::TransferEnded(id) => {
                remove_id(&mut self.transfers, id.as_str());
                SessionAction::Wait
            },
            SessionEvent::Message(message) => self.message(message),
            SessionEvent::OutputFailed(message) => {
                self.end = Some(SessionEnd::OutputFailed(message));
                SessionAction::Finish
            },
            SessionEvent::WriteFailed(reason) => {
                self.end = Some(SessionEnd::WriteFailed(reason));
                SessionAction::Finish
            },
        }
    }

    /// Deals with what happens.
    pub fn handle(&mut self, event: SessionEvent) -> (r: SessionAction)
        ensures
            exists|new_id: Seq<char>, now: Seq<char>|
                outside::is_id_text(new_id) && (final(self)@, r@) == #[trigger] loop_after(
                    old(self)@,
                    event@,
                    new_id,
                    now,
                ),
    {
        self.handle_at(event, new_id(), now())
    }

    /// What is left to do, once the session is over.
    pub fn finish(self) -> (r: Option<SessionEnding>)
        ensures
            match self@.end {
                Some(end) => r matches Some(ending) && ending@ == ending_of(self@, end),
                None => r is None,
            },
    {
        let mut this = self;
        match &this.end {
            None => None,
            Some(end) => {
                let message = end_message(end);
                let payload = disconnected_payload(this.session_id.as_str(), message.as_str());
                let report = session_end_report(this.session_id.as_str(), message.as_str());
                let output = this.output.flush();
                let r = SessionEnding { output, cancelled: this.transfers, payload, report };
                assert(r@.output == terminal::flushed(self@.output).1) by {
                    if let Some(bytes) = r.output {
                        assert(bytes.deep_view() =~= bytes@);
                    }
                }
                Some(r)
            },
        }
    }
}

/// A session that is over does nothing more, whatever happens.
pub proof fn ended_sessions_do_nothing(
    state: SessionLoopView,
    event: SessionEventView,
    new_id: Seq<char>,
    now: Seq<char>,
)
    requires
        state.end is Some,
    ensures
        loop_after(state, event, new_id, now) == (state, SessionActionView::Finish),
{
}

/// Input reaches the server as the user typed it, and output reaches the user as
/// the server sent it: what is sent on now, followed by what is kept, is what was
/// kept, followed by what came in.
pub proof fn sessions_pass_data_on(
    state: SessionLoopView,
    data: Seq<u8>,
    new_id: Seq<char>,
    now: Seq<char>,
)
    requires
        state.end is None,
    ensures
        loop_after(
            state,
            SessionEventView::Command(Some(SessionCommandView::Data(data))),
            new_id,
            now,
        ) == (state, SessionActionView::Write(data)),
        ({
            let (after, action) = loop_after(
                state,
                SessionEventView::Message(ChannelMessageView::Data(data)),
                new_id,
                now,
            );
            let sent = match action {
                SessionActionView::Emit(bytes) => bytes,
                _ => Seq::empty(),
            };
            sent + after.output == state.output + data
        }),
{
    let all = state.output + data;
    assert(all + Seq::<u8>::empty() =~= all);
    assert(Seq::<u8>::empty() + all =~= all);
}

/// Every transfer that is still running when a session is over is cancelled: one
/// that was started stays on the list until it has ended or was cancelled.
pub proof fn running_transfers_are_cancelled(
    state: SessionLoopView,
    event: SessionEventView,
    new_id: Seq<char>,
    now: Seq<char>,
    id: Seq<char>,
    end: SessionEndView,
)
    requires
        lists::has_id::<String>(state.transfers, id),
        event != SessionEventView::TransferEnded(id),
        event != SessionEventView::Command(
            Some(SessionCommandView::CancelTransfer { task_id: id }),
        ),
    ensures
        lists::has_id::<String>(ending_of(loop_after(state, event, new_id, now).0, end).cancelled, id),
{
    match event {
        SessionEventView::TransferEnded(other) => {
            lemma_others_keep(state.transfers, other, id);
        },
        SessionEventView::Command(Some(SessionCommandView::CancelTransfer { task_id })) => {
            lemma_others_keep(state.transfers, task_id, id);
        },
        SessionEventView::Command(Some(SessionCommandView::StartTransfer { .. })) => {
            let kept = lists::others::<String>(state.transfers, new_id);
            if id == new_id {
                assert(kept.push(new_id)[kept.len() as int] == id);
            } else {
                lemma_others_keep(state.transfers, new_id, id);
                let i = choose|i: int| 0 <= i < kept.len() && String::id_of(#[trigger] kept[i]) == id;
                assert(kept.push(new_id)[i] == id);
            }
        },
        _ => {},
    }
}

/// Taking one id out leaves the others.
proof fn lemma_others_keep(list: Seq<Seq<char>>, out: Seq<char>, id: Seq<char>)
    requires
        lists::has_id::<String>(list, id),
        out != id,
    ensures
        lists::has_id::<String>(lists::others::<String>(list, out), id),
    decreases list.len(),
{
    let at = choose|i: int| 0 <= i < list.len() && String::id_of(#[trigger] list[i]) == id;
    let front = lists::others::<String>(list.drop_last(), out);
    if at == list.len() - 1 {
        assert(front.push(list.last())[front.len() as int] == id);
    } else {
        assert(list.drop_last()[at] == id);
        assert(lists::has_id::<String>(list.drop_last(), id));
        lemma_others_keep(list.drop_last(), out, id);
        let i = choose|i: int| 0 <= i < front.len() && String::id_of(#[trigger] front[i]) == id;
        assert(front.push(list.last())[i] == id);
    }
}

/// Each command is carried out as it was given, while the session is open: input is
/// written, the window gets its size, a request for files is queued, a tunnel is started and
/// a session that is closed has its channel closed. No other command ends the session.
pub proof fn commands_are_carried_out(
    state: SessionLoopView,
    command: SessionCommandView,
    new_id: Seq<char>,
    now: Seq<char>,
)
    requires
        state.end is None,
    ensures
        ({
            let (after, action) = loop_after(
                state,
                SessionEventView::Command(Some(command)),
                new_id,
                now,
            );
            &&& after.session_id == state.session_id
            &&& after.output == state.output
            &&& after.end is Some <==> command is Close
            &&& match command {
                SessionCommandView::Data(data) => action == SessionActionView::Write(data) && after
                    == state,
                SessionCommandView::Resize { columns, rows } => action == (
                SessionActionView::Resize { columns, rows }) && after == state,
                SessionCommandView::Files(request) => action == SessionActionView::Enqueue(request)
                    && after == state,
                SessionCommandView::StartTunnel(profile) => action
                    == SessionActionView::StartTunnel(profile) && after == state,
                SessionCommandView::StartTransfer {
                    direction,
                    sources,
                    target_directory,
                    conflict_policy,
                } => {
                    &&& action matches SessionActionView::StartTransfer(task) && {
                        &&& task.id == new_id
                        &&& task.session_id == state.session_id
                        &&& task.direction == direction
                        &&& task.sources == sources
                        &&& task.target_directory == target_directory
                        &&& task.conflict_policy == conflict_policy
                        &&& task.created_at == now
                    }
                    &&& after.transfers.contains(new_id)
                },
                SessionCommandView::CancelTransfer { task_id } => {
                    &&& !lists::has_id::<String>(after.transfers, task_id)
                    &&& lists::has_id::<String>(state.transfers, task_id) ==> action
                        == SessionActionView::CancelTransfer(task_id)
                    &&& !lists::has_id::<String>(state.transfers, task_id) ==> action is Wait
                        && after == state
                },
                SessionCommandView::Close => action is CloseChannel && after.end == Some(
                    SessionEndView::Closed,
                ) && after.transfers == state.transfers,
            }
        }),
{
    match command {
        SessionCommandView::StartTransfer { .. } => {
            let (after, _) = loop_after(
                state,
                SessionEventView::Command(Some(command)),
                new_id,
                now,
            );
            assert(after.transfers[after.transfers.len() - 1] == new_id);
        },
        SessionCommandView::CancelTransfer { task_id } => {
            lists::lemma_others::<String>(state.transfers, task_id);
        },
        _ => {},
    }
}

/// A session ends if and only if something ends it, for that reason: the user closes it,
/// the shell exits, the server ends its output or closes, the connection is lost, or data
/// cannot be passed on. Everything else leaves it open.
pub proof fn sessions_end_for_a_reason(
    state: SessionLoopView,
    event: SessionEventView,
    new_id: Seq<char>,
    now: Seq<char>,
)
    requires
        state.end is None,
    ensures
        ({
            let (after, action) = loop_after(state, event, new_id, now);
            let reason = match event {
                SessionEventView::Command(None) => Some(SessionEndView::Closed),
                SessionEventView::Command(Some(SessionCommandView::Close)) => Some(
                    SessionEndView::Closed,
                ),
                SessionEventView::Message(ChannelMessageView::ExitStatus(code)) => Some(
                    SessionEndView::Exited(code),
                ),
                SessionEventView::Message(ChannelMessageView::EndOfOutput) => Some(
                    SessionEndView::EndOfOutput,
                ),
                SessionEventView::Message(ChannelMessageView::Closed) => Some(
                    SessionEndView::ClosedByServer,
                ),
                SessionEventView::Message(ChannelMessageView::Lost) => Some(SessionEndView::Lost),
                SessionEventView::OutputFailed(message) => Some(
                    SessionEndView::OutputFailed(message),
                ),
                SessionEventView::WriteFailed(message) => Some(
                    SessionEndView::WriteFailed(message),
                ),
                _ => None,
            };
            &&& after.end == reason
            &&& after.session_id == state.session_id
            &&& reason is Some ==> after.transfers == state.transfers && after.output
                == state.output && (action is Finish || action is CloseChannel)
            &&& action is CloseChannel <==> (event matches SessionEventView::Command(given) && (
            given matches Some(command) ==> command is Close))
            &&& event is Tick ==> after.output.len() == 0 && (state.output.len() > 0 ==> action
                == SessionActionView::Emit(state.output))
            &&& event matches SessionEventView::TransferEnded(id) ==> !lists::has_id::<String>(
                after.transfers,
                id,
            ) && action is Wait
        }),
{
    if let SessionEventView::TransferEnded(id) = event {
        lists::lemma_others::<String>(state.transfers, id);
    }
}

/// What is left of a session that is over is sent on, its transfers are cancelled, and the
/// user is told that it is disconnected and why.
pub proof fn ended_sessions_are_wound_up(state: SessionLoopView, end: SessionEndView)
    ensures
        ({
            let ending = ending_of(state, end);
            &&& state.output.len() > 0 ==> ending.output == Some(state.output)
            &&& state.output.len() == 0 ==> ending.output is None
            &&& ending.cancelled == state.transfers
            &&& ending.payload.session_id == state.session_id
            &&& ending.payload.status == SessionStatus::Disconnected
            &&& ending.payload.message == Some(terminal::end_message_for(end))
            &&& terminal::end_message_for(end).is_suffix_of(ending.report)
        }),
{
    let (report, message) = (ending_of(state, end).report, terminal::end_message_for(end));
    assert(report.skip(report.len() - message.len()) =~= message);
}

} // verus!
