//! What a running session does: output is gathered and sent on, and in the end the
//! user is told why the session is over.

#![verifier::loop_isolation(false)]

use crate::models::{SessionStatus, SessionStatusPayload, SessionStatusPayloadView};
use crate::network::append_bytes;
use crate::text::{self, cat2, cat4, decimal_text};
use vstd::prelude::*;

verus! {

/// The number of bytes at which output is sent on at once.
pub const OUTPUT_LIMIT: usize = 65_536;

/// Gathers the output of a session.
pub struct SessionOutput {
    buffer: Vec<u8>,
}

impl View for SessionOutput {
    type V = Seq<u8>;

    closed spec fn view(&self) -> Seq<u8> {
        self.buffer@
    }
}

/// What is kept and what is sent on after output came in.
pub open spec fn gathered(buffer: Seq<u8>, data: Seq<u8>) -> (Seq<u8>, Option<Seq<u8>>) {
    let all = buffer + data;
    if all.len() >= OUTPUT_LIMIT {
        (Seq::empty(), Some(all))
    } else {
        (all, None)
    }
}

/// What is kept and what is sent on when the time has come.
pub open spec fn flushed(buffer: Seq<u8>) -> (Seq<u8>, Option<Seq<u8>>) {
    if buffer.len() > 0 {
        (Seq::empty(), Some(buffer))
    } else {
        (buffer, None)
    }
}

impl SessionOutput {
    /// A session without output.
    pub fn new() -> (r: Self)
        ensures
            r@ == Seq::<u8>::empty(),
    {
        SessionOutput { buffer: Vec::new() }
    }

    /// Takes all that was gathered.
    fn take(&mut self) -> (r: Vec<u8>)
        ensures
            r@ == old(self)@,
            final(self)@ == Seq::<u8>::empty(),
    {
        let mut taken: Vec<u8> = Vec::new();
        core::mem::swap(&mut taken, &mut self.buffer);
        taken
    }

    /// Takes output in, and gives what is sent on.
    pub fn received(&mut self, data: &[u8]) -> (r: Option<Vec<u8>>)
        ensures
            (final(self)@, match r {
                Some(bytes) => Some(bytes@),
                None => None,
            }) == gathered(old(self)@, data@),
    {
        append_bytes(&mut self.buffer, data);
        if self.buffer.len() >= OUTPUT_LIMIT {
            Some(self.take())
        } else {
            None
        }
    }

    /// Gives what is sent on when the time has come, or the session is over.
    pub fn flush(&mut self) -> (r: Option<Vec<u8>>)
        ensures
            (final(self)@, match r {
                Some(bytes) => Some(bytes@),
                None => None,
            }) == flushed(old(self)@),
    {
        if self.buffer.len() > 0 {
            Some(self.take())
        } else {
            None
        }
    }
}

/// What happens to the output of a session: data come in, or the time has come to
/// send on what was gathered.
#[verifier::ext_equal]
pub enum OutputEvent {
    Data(Seq<u8>),
    Flush,
}

/// The bytes that came in.
pub open spec fn bytes_in(events: Seq<OutputEvent>) -> Seq<u8>
    decreases events.len(),
{
    if events.len() == 0 {
        Seq::empty()
    } else {
        match events.last() {
            OutputEvent::Data(data) => bytes_in(events.drop_last()) + data,
            OutputEvent::Flush => bytes_in(events.drop_last()),
        }
    }
}

/// What is kept after all that happened, and the bytes that were sent on.
pub open spec fn bytes_out(events: Seq<OutputEvent>) -> (Seq<u8>, Seq<u8>)
    decreases events.len(),
{
    if events.len() == 0 {
        (Seq::empty(), Seq::empty())
    } else {
        let (buffer, sent) = bytes_out(events.drop_last());
        let (kept, chunk) = match events.last() {
            OutputEvent::Data(data) => gathered(buffer, data),
            OutputEvent::Flush => flushed(buffer),
        };
        match chunk {
            Some(bytes) => (kept, sent + bytes),
            None => (kept, sent),
        }
    }
}

/// No byte of the output is lost, changed or moved: what was sent on, followed by
/// what is kept, is what came in.
pub proof fn output_is_preserved(events: Seq<OutputEvent>)
    ensures
        bytes_out(events).1 + bytes_out(events).0 == bytes_in(events),
        bytes_out(events).0.len() < OUTPUT_LIMIT,
    decreases events.len(),
{
    if events.len() > 0 {
        output_is_preserved(events.drop_last());
        let (buffer, sent) = bytes_out(events.drop_last());
        match events.last() {
            OutputEvent::Data(data) => {
                assert((sent + buffer) + data =~= sent + (buffer + data));
                assert(sent + (buffer + data) =~= (sent + (buffer + data)) + Seq::<u8>::empty());
            },
            OutputEvent::Flush => {
                assert(sent + buffer =~= (sent + buffer) + Seq::<u8>::empty());
            },
        }
    } else {
        assert(bytes_out(events).1 + bytes_out(events).0 =~= bytes_in(events));
    }
}

/// Why a session is over.
#[derive(Debug)]
pub enum SessionEnd {
    /// Output could not be sent on.
    OutputFailed(String),
    /// Input could not be sent to the server.
    WriteFailed(String),
    /// The user closed it.
    Closed,
    /// The shell ended with this code.
    Exited(u32),
    /// The shell ended its output.
    EndOfOutput,
    /// The server closed it.
    ClosedByServer,
    /// The connection is gone.
    Lost,
}

/// What a [`SessionEnd`] says.
#[verifier::ext_equal]
pub enum SessionEndView {
    OutputFailed(Seq<char>),
    WriteFailed(Seq<char>),
    Closed,
    Exited(u32),
    EndOfOutput,
    ClosedByServer,
    Lost,
}

impl View for SessionEnd {
    type V = SessionEndView;

    open spec fn view(&self) -> SessionEndView {
        match self {
            SessionEnd::OutputFailed(message) => SessionEndView::OutputFailed(message@),
            SessionEnd::WriteFailed(reason) => SessionEndView::WriteFailed(reason@),
            SessionEnd::Closed => SessionEndView::Closed,
            SessionEnd::Exited(code) => SessionEndView::Exited(*code),
            SessionEnd::EndOfOutput => SessionEndView::EndOfOutput,
            SessionEnd::ClosedByServer => SessionEndView::ClosedByServer,
            SessionEnd::Lost => SessionEndView::Lost,
        }
    }
}

/// What the user is told when a session is over.
pub open spec fn end_message_for(end: SessionEndView) -> Seq<char> {
    match end {
        SessionEndView::OutputFailed(message) => "终端数据发送失败："@ + message,
        SessionEndView::WriteFailed(reason) => "网络写入失败："@ + reason,
        SessionEndView::Closed => "会话已关闭"@,
        SessionEndView::Exited(code) => "远端 Shell 已退出，状态码 "@ + text::decimal(code as nat),
        SessionEndView::EndOfOutput => "远端 Shell 已结束输出"@,
        SessionEndView::ClosedByServer => "服务器已关闭当前会话"@,
        SessionEndView::Lost => "网络连接已中断或服务器已关闭会话"@,
    }
}

/// What the user is told when a session is over.
pub fn end_message(end: &SessionEnd) -> (r: String)
    ensures
        r@ == end_message_for(end@),
{
    match end {
        SessionEnd::OutputFailed(message) => cat2("终端数据发送失败：", message.as_str()),
        SessionEnd::WriteFailed(reason) => cat2("网络写入失败：", reason.as_str()),
        SessionEnd::Closed => "会话已关闭".to_owned(),
        SessionEnd::Exited(code) => cat2(
            "远端 Shell 已退出，状态码 ",
            decimal_text(*code as u64).as_str(),
        ),
        SessionEnd::EndOfOutput => "远端 Shell 已结束输出".to_owned(),
        SessionEnd::ClosedByServer => "服务器已关闭当前会话".to_owned(),
        SessionEnd::Lost => "网络连接已中断或服务器已关闭会话".to_owned(),
    }
}

/// The end of a session, as it is reported.
pub fn disconnected_payload(session_id: &str, message: &str) -> (r: SessionStatusPayload)
    ensures
        r@ == (SessionStatusPayloadView {
            session_id: session_id@,
            status: SessionStatus::Disconnected,
            message: Some(message@),
        }),
{
    SessionStatusPayload {
        session_id: session_id.to_owned(),
        status: SessionStatus::Disconnected,
        message: Some(message.to_owned()),
    }
}

/// What is written to the diagnostic log when a session starts.
pub fn session_start_report(session_id: &str) -> (r: String)
    ensures
        r@ == "session="@ + session_id@,
{
    cat2("session=", session_id)
}

/// What is written to the diagnostic log when a session is over.
pub fn session_end_report(session_id: &str, message: &str) -> (r: String)
    ensures
        r@ == "session="@ + session_id@ + " result="@ + message@,
{
    cat4("session=", session_id, " result=", message)
}

/// Output is held back until there are 65536 bytes of it or it is asked for, and is then
/// sent on whole, with nothing left.
pub proof fn output_is_sent_on_whole(buffer: Seq<u8>, data: Seq<u8>)
    ensures
        ({
            let (kept, sent) = gathered(buffer, data);
            &&& sent is Some <==> buffer.len() + data.len() >= 65536
            &&& sent matches Some(bytes) ==> bytes == buffer + data && kept.len() == 0
            &&& sent is None ==> kept == buffer + data
        }),
        ({
            let (kept, sent) = flushed(buffer);
            &&& kept.len() == 0
            &&& sent is Some <==> buffer.len() > 0
            &&& sent matches Some(bytes) ==> bytes == buffer
        }),
{
}

/// Sessions that end for different reasons say so differently, and what went wrong or the
/// code of the shell is told.
pub proof fn session_ends_are_told(reason: Seq<char>, code: u32)
    ensures
        reason.is_suffix_of(end_message_for(SessionEndView::OutputFailed(reason))),
        reason.is_suffix_of(end_message_for(SessionEndView::WriteFailed(reason))),
        text::decimal(code as nat).is_suffix_of(end_message_for(SessionEndView::Exited(code))),
        end_message_for(SessionEndView::Closed) != end_message_for(SessionEndView::Lost),
        end_message_for(SessionEndView::Closed) != end_message_for(SessionEndView::ClosedByServer),
        end_message_for(SessionEndView::Closed) != end_message_for(SessionEndView::EndOfOutput),
        end_message_for(SessionEndView::Lost) != end_message_for(SessionEndView::ClosedByServer),
        end_message_for(SessionEndView::Lost) != end_message_for(SessionEndView::EndOfOutput),
        end_message_for(SessionEndView::EndOfOutput) != end_message_for(
            SessionEndView::ClosedByServer,
        ),
{
    reveal_strlit("会话已关闭");
    reveal_strlit("远端 Shell 已结束输出");
    reveal_strlit("服务器已关闭当前会话");
    reveal_strlit("网络连接已中断或服务器已关闭会话");
    let a = end_message_for(SessionEndView::OutputFailed(reason));
    assert(a.skip(a.len() - reason.len()) =~= reason);
    let b = end_message_for(SessionEndView::WriteFailed(reason));
    assert(b.skip(b.len() - reason.len()) =~= reason);
    let c = end_message_for(SessionEndView::Exited(code));
    let n = text::decimal(code as nat);
    assert(c.skip(c.len() - n.len()) =~= n);
    assert(end_message_for(SessionEndView::Closed)[0] == '会');
    assert(end_message_for(SessionEndView::EndOfOutput)[0] == '远');
    assert(end_message_for(SessionEndView::ClosedByServer)[0] == '服');
    assert(end_message_for(SessionEndView::Lost)[0] == '网');
}

} // verus!
