//! The SOCKS5 requests that a dynamic tunnel answers: what is read and written on
//! the connection, and where it goes.

#![verifier::loop_isolation(false)]

use crate::error::{self, AppError, ErrorView};
use crate::models::Duplicate;
use crate::outside::{self, ipv6_text, utf8_text};
use crate::text::{self, decimal_text};
use crate::tunnel::{self, ForwardTarget, ForwardTargetView, tunnel_protocol_error};
use vstd::prelude::*;
use vstd::utf8::*;

verus! {

/// How far a request has come.
#[derive(Debug)]
pub enum ServerStep {
    /// The version and the number of ways to log in are read.
    ReadGreeting,
    /// The ways to log in are read.
    ReadMethods { count: usize },
    /// No way to log in is accepted.
    SendNoMethod,
    /// A way to log in is chosen.
    SendMethod,
    /// The start of the request is read.
    ReadRequest,
    /// The request is refused.
    SendRefusal,
    /// The length of a name is read.
    ReadNameLength,
    /// The host is read, in the form that the type says.
    ReadHost { address_type: u8, length: usize },
    /// The port is read.
    ReadPort { host: String },
    /// The target is opened.
    OpenTarget { target: ForwardTarget },
    /// The target could not be opened.
    SendUnreachable { error: AppError },
    /// The target is open.
    SendReady,
    /// Data are carried.
    Forward,
    /// The connection is over.
    Finished,
    /// The request failed.
    Failed { error: AppError },
}

/// What a [`ServerStep`] says.
#[verifier::ext_equal]
pub enum ServerStepView {
    ReadGreeting,
    ReadMethods { count: int },
    SendNoMethod,
    SendMethod,
    ReadRequest,
    SendRefusal,
    ReadNameLength,
    ReadHost { address_type: u8, length: int },
    ReadPort { host: Seq<char> },
    OpenTarget { target: ForwardTargetView },
    SendUnreachable { error: ErrorView },
    SendReady,
    Forward,
    Finished,
    Failed { error: ErrorView },
}

impl View for ServerStep {
    type V = ServerStepView;

    open spec fn view(&self) -> ServerStepView {
        match self {
            ServerStep::ReadGreeting => ServerStepView::ReadGreeting,
            ServerStep::ReadMethods { count } => ServerStepView::ReadMethods {
                count: *count as int,
            },
            ServerStep::SendNoMethod => ServerStepView::SendNoMethod,
            ServerStep::SendMethod => ServerStepView::SendMethod,
            ServerStep::ReadRequest => ServerStepView::ReadRequest,
            ServerStep::SendRefusal => ServerStepView::SendRefusal,
            ServerStep::ReadNameLength => ServerStepView::ReadNameLength,
            ServerStep::ReadHost { address_type, length } => ServerStepView::ReadHost {
                address_type: *address_type,
                length: *length as int,
            },
            ServerStep::ReadPort { host } => ServerStepView::ReadPort { host: host@ },
            ServerStep::OpenTarget { target } => ServerStepView::OpenTarget { target: target@ },
            ServerStep::SendUnreachable { error } => ServerStepView::SendUnreachable {
                error: error@,
            },
            ServerStep::SendReady => ServerStepView::SendReady,
            ServerStep::Forward => ServerStepView::Forward,
            ServerStep::Finished => ServerStepView::Finished,
            ServerStep::Failed { error } => ServerStepView::Failed { error: error@ },
        }
    }
}

/// What the caller does next on the connection.
#[derive(Debug)]
pub enum ServerAction {
    Read(usize),
    Write(Vec<u8>),
    Open(ForwardTarget),
    Forward,
    Finish,
}

/// What a [`ServerAction`] says.
#[verifier::ext_equal]
pub enum ServerActionView {
    Read(int),
    Write(Seq<u8>),
    Open(ForwardTargetView),
    Forward,
    Finish,
}

impl View for ServerAction {
    type V = ServerActionView;

    open spec fn view(&self) -> ServerActionView {
        match self {
            ServerAction::Read(count) => ServerActionView::Read(*count as int),
            ServerAction::Write(bytes) => ServerActionView::Write(bytes@),
            ServerAction::Open(target) => ServerActionView::Open(target@),
            ServerAction::Forward => ServerActionView::Forward,
            ServerAction::Finish => ServerActionView::Finish,
        }
    }
}

/// An answer to a request, with this code and no address.
pub open spec fn reply_bytes(code: u8) -> Seq<u8> {
    seq![5u8, code, 0u8, 1u8, 0u8, 0u8, 0u8, 0u8, 0u8, 0u8]
}

/// An answer to a request, with this code and no address.
fn reply(code: u8) -> (r: Vec<u8>)
    ensures
        r@ == reply_bytes(code),
{
    let mut r: Vec<u8> = Vec::new();
    r.push(5);
    r.push(code);
    r.push(0);
    r.push(1);
    r.push(0);
    r.push(0);
    r.push(0);
    r.push(0);
    r.push(0);
    r.push(0);
    assert(r@ =~= reply_bytes(code));
    r
}

/// What the caller does in a step.
pub open spec fn server_action(step: ServerStepView) -> ServerActionView {
    match step {
        ServerStepView::ReadGreeting => ServerActionView::Read(2),
        ServerStepView::ReadMethods { count } => ServerActionView::Read(count),
        ServerStepView::SendNoMethod => ServerActionView::Write(seq![5u8, 255u8]),
        ServerStepView::SendMethod => ServerActionView::Write(seq![5u8, 0u8]),
        ServerStepView::ReadRequest => ServerActionView::Read(4),
        ServerStepView::SendRefusal => ServerActionView::Write(reply_bytes(7)),
        ServerStepView::ReadNameLength => ServerActionView::Read(1),
        ServerStepView::ReadHost { length, .. } => ServerActionView::Read(length),
        ServerStepView::ReadPort { .. } => ServerActionView::Read(2),
        ServerStepView::OpenTarget { target } => ServerActionView::Open(target),
        ServerStepView::SendUnreachable { .. } => ServerActionView::Write(reply_bytes(5)),
        ServerStepView::SendReady => ServerActionView::Write(reply_bytes(0)),
        ServerStepView::Forward => ServerActionView::Forward,
        ServerStepView::Finished => ServerActionView::Finish,
        ServerStepView::Failed { .. } => ServerActionView::Finish,
    }
}

/// How many bytes a step reads.
pub open spec fn server_reads(step: ServerStepView) -> int {
    match server_action(step) {
        ServerActionView::Read(count) => count,
        _ => 0,
    }
}

/// The step after the request failed.
pub open spec fn server_failed(details: Seq<char>) -> ServerStepView {
    ServerStepView::Failed { error: tunnel::tunnel_protocol_fault(details) }
}

/// An address of the fourth version as text.
pub open spec fn dotted(octets: Seq<u8>) -> Seq<char> {
    text::decimal(octets[0] as nat) + "."@ + text::decimal(octets[1] as nat) + "."@ + text::decimal(
        octets[2] as nat,
    ) + "."@ + text::decimal(octets[3] as nat)
}

/// The host that a request names, where `address` is the text for an address of
/// the sixth version.
pub open spec fn requested_host(address_type: u8, bytes: Seq<u8>, address: Seq<char>) -> Option<
    Seq<char>,
> {
    if address_type == 1 {
        Some(dotted(bytes))
    } else if address_type == 4 {
        Some(address)
    } else if valid_utf8(bytes) {
        Some(decode_utf8(bytes))
    } else {
        None
    }
}

/// The step after the type of the host is known.
pub open spec fn host_step(address_type: u8) -> ServerStepView {
    if address_type == 1 {
        ServerStepView::ReadHost { address_type, length: 4 }
    } else if address_type == 4 {
        ServerStepView::ReadHost { address_type, length: 16 }
    } else if address_type == 3 {
        ServerStepView::ReadNameLength
    } else {
        server_failed("SOCKS5 address type was unsupported"@)
    }
}

/// The step after the caller wrote, or read `received`. `address` is the text for
/// an address of the sixth version that was read.
pub open spec fn server_after(
    step: ServerStepView,
    received: Seq<u8>,
    address: Seq<char>,
) -> ServerStepView {
    match step {
        ServerStepView::ReadGreeting => if received[0] != 5 || received[1] == 0 || received[1]
            > 16 {
            server_failed("invalid SOCKS5 greeting"@)
        } else {
            ServerStepView::ReadMethods { count: received[1] as int }
        },
        ServerStepView::ReadMethods { .. } => if received.contains(0) {
            ServerStepView::SendMethod
        } else {
            ServerStepView::SendNoMethod
        },
        ServerStepView::SendNoMethod => server_failed("SOCKS5 client did not offer no-auth"@),
        ServerStepView::SendMethod => ServerStepView::ReadRequest,
        ServerStepView::ReadRequest => if received[0] != 5 || received[2] != 0 || received[1] != 1 {
            ServerStepView::SendRefusal
        } else {
            host_step(received[3])
        },
        ServerStepView::SendRefusal => server_failed("only SOCKS5 TCP CONNECT is supported"@),
        ServerStepView::ReadNameLength => if received[0] == 0 {
            server_failed("SOCKS5 domain was empty"@)
        } else {
            ServerStepView::ReadHost { address_type: 3, length: received[0] as int }
        },
        ServerStepView::ReadHost { address_type, .. } => match requested_host(
            address_type,
            received,
            address,
        ) {
            Some(host) => ServerStepView::ReadPort { host },
            None => server_failed("SOCKS5 domain was not UTF-8"@),
        },
        ServerStepView::ReadPort { host } => ServerStepView::OpenTarget {
            target: ForwardTargetView {
                host,
                port: (received[0] * 256 + received[1]) as u16,
            },
        },
        ServerStepView::OpenTarget { .. } => ServerStepView::SendReady,
        ServerStepView::SendUnreachable { error } => ServerStepView::Failed { error },
        ServerStepView::SendReady => ServerStepView::Forward,
        ServerStepView::Forward => ServerStepView::Finished,
        ServerStepView::Finished => step,
        ServerStepView::Failed { .. } => step,
    }
}

/// The error for a target that could not be opened.
pub open spec fn unreachable_error(reason: Seq<char>) -> ErrorView {
    error::ssh_error("TUNNEL-TARGET-FAILED"@, "SSH 服务器无法连接动态转发目标"@, reason, true)
}

/// A request of a SOCKS5 client.
pub struct SocksServer {
    step: ServerStep,
}

impl View for SocksServer {
    type V = ServerStepView;

    closed spec fn view(&self) -> ServerStepView {
        self.step@
    }
}

/// The steps in which a request can be.
pub open spec fn server_step_fits(step: ServerStepView) -> bool {
    match step {
        ServerStepView::ReadMethods { count } => 0 < count <= 16,
        ServerStepView::ReadHost { address_type, length } => {
            ||| address_type == 1 && length == 4
            ||| address_type == 4 && length == 16
            ||| address_type == 3 && 0 < length <= 255
        },
        _ => true,
    }
}

/// Whether a step belongs to the handshake, for which the client has limited time.
/// Data are carried for as long as it takes.
pub open spec fn is_handshake(step: ServerStepView) -> bool {
    !(step is Forward) && !(step is Finished) && !(step is Failed)
}

impl SocksServer {
    /// The step is one that can come.
    pub open spec fn wf(self) -> bool {
        server_step_fits(self@)
    }

    /// A request of which nothing was read yet.
    pub fn new() -> (r: Self)
        ensures
            r.wf(),
            r@ == ServerStepView::ReadGreeting,
    {
        SocksServer { step: ServerStep::ReadGreeting }
    }

    /// What the caller does next.
    pub fn action(&self) -> (r: ServerAction)
        ensures
            r@ == server_action(self@),
    {
        match &self.step {
            ServerStep::ReadGreeting => ServerAction::Read(2),
            ServerStep::ReadMethods { count } => ServerAction::Read(*count),
            ServerStep::SendNoMethod => {
                let mut bytes: Vec<u8> = Vec::new();
                bytes.push(5);
                bytes.push(255);
                assert(bytes@ =~= seq![5u8, 255u8]);
                ServerAction::Write(bytes)
            },
            ServerStep::SendMethod => {
                let mut bytes: Vec<u8> = Vec::new();
                bytes.push(5);
                bytes.push(0);
                assert(bytes@ =~= seq![5u8, 0u8]);
                ServerAction::Write(bytes)
            },
            ServerStep::ReadRequest => ServerAction::Read(4),
            ServerStep::SendRefusal => ServerAction::Write(reply(7)),
            ServerStep::ReadNameLength => ServerAction::Read(1),
            ServerStep::ReadHost { length, .. } => ServerAction::Read(*length),
            ServerStep::ReadPort { .. } => ServerAction::Read(2),
            ServerStep::OpenTarget { target } => ServerAction::Open(target.duplicate()),
            ServerStep::SendUnreachable { .. } => ServerAction::Write(reply(5)),
            ServerStep::SendReady => ServerAction::Write(reply(0)),
            ServerStep::Forward => ServerAction::Forward,
            ServerStep::Finished => ServerAction::Finish,
            ServerStep::Failed { .. } => ServerAction::Finish,
        }
    }

    /// Goes on after the caller did what was asked: read as many bytes as were
    /// asked for, wrote, opened the target or carried the data. `address` is the
    /// text for the address of the sixth version that was read.
    pub fn advance_with(&mut self, received: &Vec<u8>, address: &str)
        requires
            old(self).wf(),
            received@.len() == server_reads(old(self)@),
        ensures
            final(self).wf(),
            final(self)@ == server_after(old(self)@, received@, address@),
    {
        let next = match &self.step {
            ServerStep::ReadGreeting => {
                if received[0] != 5 || received[1] == 0 || received[1] > 16 {
                    ServerStep::Failed { error: tunnel_protocol_error("invalid SOCKS5 greeting") }
                } else {
                    ServerStep::ReadMethods { count: received[1] as usize }
                }
            },
            ServerStep::ReadMethods { .. } => {
                if offers(received, 0) {
                    ServerStep::SendMethod
                } else {
                    ServerStep::SendNoMethod
                }
            },
            ServerStep::SendNoMethod => ServerStep::Failed {
                error: tunnel_protocol_error("SOCKS5 client did not offer no-auth"),
            },
            ServerStep::SendMethod => ServerStep::ReadRequest,
            ServerStep::ReadRequest => {
                if received[0] != 5 || received[2] != 0 || received[1] != 1 {
                    ServerStep::SendRefusal
                } else if received[3] == 1 {
                    ServerStep::ReadHost { address_type: 1, length: 4 }
                } else if received[3] == 4 {
                    ServerStep::ReadHost { address_type: 4, length: 16 }
                } else if received[3] == 3 {
                    ServerStep::ReadNameLength
                } else {
                    ServerStep::Failed {
                        error: tunnel_protocol_error("SOCKS5 address type was unsupported"),
                    }
                }
            },
            ServerStep::SendRefusal => ServerStep::Failed {
                error: tunnel_protocol_error("only SOCKS5 TCP CONNECT is supported"),
            },
            ServerStep::ReadNameLength => {
                if received[0] == 0 {
                    ServerStep::Failed { error: tunnel_protocol_error("SOCKS5 domain was empty") }
                } else {
                    ServerStep::ReadHost { address_type: 3, length: received[0] as usize }
                }
            },
            ServerStep::ReadHost { address_type, .. } => match read_socks_host(
                *address_type,
                received,
                address,
            ) {
                Some(host) => ServerStep::ReadPort { host },
                None => ServerStep::Failed {
                    error: tunnel_protocol_error("SOCKS5 domain was not UTF-8"),
                },
            },
            ServerStep::ReadPort { host } => ServerStep::OpenTarget {
                target: ForwardTarget {
                    host: host.clone(),
                    port: received[0] as u16 * 256 + received[1] as u16,
                },
            },
            ServerStep::OpenTarget { .. } => ServerStep::SendReady,
            ServerStep::SendUnreachable { error } => ServerStep::Failed {
                error: error.duplicate(),
            },
            ServerStep::SendReady => ServerStep::Forward,
            ServerStep::Forward => ServerStep::Finished,
            ServerStep::Finished => ServerStep::Finished,
            ServerStep::Failed { error } => ServerStep::Failed { error: error.duplicate() },
        };
        self.step = next;
    }

    /// Goes on after the caller did what was asked.
    pub fn advance(&mut self, received: &Vec<u8>)
        requires
            old(self).wf(),
            received@.len() == server_reads(old(self)@),
        ensures
            final(self).wf(),
            final(self)@ == server_after(old(self)@, received@, outside::ipv6_text_of(received@)),
    {
        let mut address = String::new();
        match &self.step {
            ServerStep::ReadHost { address_type, .. } => {
                if *address_type == 4 {
                    address = ipv6_text(received);
                }
            },
            _ => {},
        }
        self.advance_with(received, address.as_str());
    }

    /// Goes on after the target could not be opened.
    pub fn refused(&mut self, reason: &str)
        requires
            old(self)@ is OpenTarget,
        ensures
            final(self).wf(),
            final(self)@ == (ServerStepView::SendUnreachable { error: unreachable_error(reason@) }),
    {
        self.step = ServerStep::SendUnreachable {
            error: AppError::ssh(
                "TUNNEL-TARGET-FAILED",
                "SSH 服务器无法连接动态转发目标",
                reason,
                true,
            ),
        };
    }

    /// Whether the time for what the caller does next is limited.
    pub fn is_limited(&self) -> (r: bool)
        ensures
            r == is_handshake(self@),
    {
        match &self.step {
            ServerStep::Forward => false,
            ServerStep::Finished => false,
            ServerStep::Failed { .. } => false,
            _ => true,
        }
    }

    /// Whether the request was served, once it is over.
    pub fn outcome(self) -> (r: Option<Result<(), AppError>>)
        ensures
            match r {
                None => !(self@ is Finished) && !(self@ is Failed),
                Some(Ok(())) => self@ is Finished,
                Some(Err(error)) => self@ == (ServerStepView::Failed { error: error@ }),
            },
    {
        match self.step {
            ServerStep::Finished => Some(Ok(())),
            ServerStep::Failed { error } => Some(Err(error)),
            _ => None,
        }
    }
}

/// Whether a way to log in is among those that are offered.
fn offers(methods: &Vec<u8>, method: u8) -> (r: bool)
    ensures
        r == methods@.contains(method),
{
    let mut i: usize = 0;
    while i < methods.len()
        invariant
            i <= methods@.len(),
            forall|j: int| 0 <= j < i ==> methods@[j] != method,
        decreases methods@.len() - i,
    {
        if methods[i] == method {
            return true;
        }
        i = i + 1;
    }
    false
}

/// The host that a request names, where `address` is the text for an address of
/// the sixth version.
pub fn read_socks_host(address_type: u8, bytes: &Vec<u8>, address: &str) -> (r: Option<String>)
    requires
        address_type == 1 ==> bytes@.len() == 4,
    ensures
        r.deep_view() == requested_host(address_type, bytes@, address@),
{
    if address_type == 1 {
        let mut host = decimal_text(bytes[0] as u64);
        host.append(".");
        host.append(decimal_text(bytes[1] as u64).as_str());
        host.append(".");
        host.append(decimal_text(bytes[2] as u64).as_str());
        host.append(".");
        host.append(decimal_text(bytes[3] as u64).as_str());
        return Some(host);
    }
    if address_type == 4 {
        return Some(address.to_owned());
    }
    match utf8_text(bytes) {
        Ok(host) => Some(host),
        Err(_) => None,
    }
}

/// The target of a request is opened only where the client speaks SOCKS5, offers
/// to go without a login, and asks for a connection; and it is told that it is
/// ready only once the target is open.
pub proof fn requests_are_checked(step: ServerStepView, received: Seq<u8>, address: Seq<char>)
    requires
        received.len() == server_reads(step),
    ensures
        server_after(step, received, address) is SendMethod ==> step is ReadMethods
            && received.contains(0),
        server_after(step, received, address) is ReadHost || server_after(
            step,
            received,
            address,
        ) is ReadNameLength ==> step is ReadNameLength || (step is ReadRequest && received[0] == 5
            && received[1] == 1 && received[2] == 0),
        server_after(step, received, address) is OpenTarget ==> step is ReadPort,
        server_after(step, received, address) is SendReady ==> step is OpenTarget,
        server_after(step, received, address) is Forward ==> step is SendReady,
{
}

/// The time of a connection is limited until its data are carried, and never again.
pub proof fn carried_data_are_not_limited(
    step: ServerStepView,
    received: Seq<u8>,
    address: Seq<char>,
)
    ensures
        !is_handshake(ServerStepView::Forward),
        !is_handshake(step) ==> !is_handshake(server_after(step, received, address)),
{
}

/// A client that offers to do without a login and asks for a connection gets one to the
/// host and the port that it names; the answers say whether it was made.
pub proof fn clients_reach_what_they_ask_for(
    address_type: u8,
    host: Seq<char>,
    received: Seq<u8>,
    address: Seq<char>,
    target: ForwardTargetView,
    error: ErrorView,
)
    requires
        received.len() == 2,
    ensures
        server_after(ServerStepView::ReadPort { host }, received, address) == (
        ServerStepView::OpenTarget {
            target: ForwardTargetView { host, port: (received[0] * 256 + received[1]) as u16 },
        }),
        server_action(ServerStepView::OpenTarget { target }) == ServerActionView::Open(target),
        server_after(ServerStepView::OpenTarget { target }, received, address) is SendReady,
        server_after(ServerStepView::SendReady, received, address) is Forward,
        server_action(ServerStepView::Forward) is Forward,
        server_after(ServerStepView::Forward, received, address) is Finished,
        server_after(ServerStepView::SendMethod, received, address) is ReadRequest,
        server_action(ServerStepView::SendMethod) == ServerActionView::Write(seq![5u8, 0u8]),
        server_action(ServerStepView::SendNoMethod) == ServerActionView::Write(seq![5u8, 255u8]),
        server_after(ServerStepView::SendNoMethod, received, address) is Failed,
        server_after(ServerStepView::SendRefusal, received, address) is Failed,
        server_after(ServerStepView::SendUnreachable { error }, received, address) == (
        ServerStepView::Failed { error }),
        server_action(ServerStepView::SendReady) matches ServerActionView::Write(bytes)
            && bytes.len() == 10 && bytes[0] == 5 && bytes[1] == 0,
        server_action(ServerStepView::SendRefusal) matches ServerActionView::Write(bytes)
            && bytes.len() == 10 && bytes[0] == 5 && bytes[1] == 7,
        server_action(ServerStepView::SendUnreachable { error }) matches ServerActionView::Write(
            bytes,
        ) && bytes.len() == 10 && bytes[0] == 5 && bytes[1] == 5,
{
}

/// A host is read as the client wrote it: four bytes as numbers with dots between them,
/// sixteen as the address that they are, and a name as its text, which must make sense.
pub proof fn hosts_are_read_as_written(received: Seq<u8>, address: Seq<char>, length: int)
    ensures
        server_after(
            ServerStepView::ReadHost { address_type: 1, length },
            received,
            address,
        ) == (ServerStepView::ReadPort { host: dotted(received) }),
        server_after(
            ServerStepView::ReadHost { address_type: 4, length },
            received,
            address,
        ) == (ServerStepView::ReadPort { host: address }),
        valid_utf8(received) ==> server_after(
            ServerStepView::ReadHost { address_type: 3, length },
            received,
            address,
        ) == (ServerStepView::ReadPort { host: decode_utf8(received) }),
        !valid_utf8(received) ==> server_after(
            ServerStepView::ReadHost { address_type: 3, length },
            received,
            address,
        ) is Failed,
        received.len() > 0 && received[0] > 0 ==> server_after(
            ServerStepView::ReadNameLength,
            received,
            address,
        ) == (ServerStepView::ReadHost { address_type: 3, length: received[0] as int }),
        received.len() > 0 && received[0] == 0 ==> server_after(
            ServerStepView::ReadNameLength,
            received,
            address,
        ) is Failed,
        host_step(1) == (ServerStepView::ReadHost { address_type: 1, length: 4 }),
        host_step(4) == (ServerStepView::ReadHost { address_type: 4, length: 16 }),
        host_step(3) is ReadNameLength,
        forall|kind: u8|
            kind != 1 && kind != 3 && kind != 4 ==> (#[trigger] host_step(kind)) is Failed,
{
}

/// A client is taken in if and only if it speaks version five and offers from one to
/// sixteen ways to log in, among them none; it is refused where it asks for anything but a
/// connection.
pub proof fn greetings_are_checked(received: Seq<u8>, address: Seq<char>, count: int)
    requires
        received.len() >= 4,
    ensures
        received[0] == 5 && 1 <= received[1] <= 16 ==> server_after(
            ServerStepView::ReadGreeting,
            received,
            address,
        ) == (ServerStepView::ReadMethods { count: received[1] as int }),
        server_after(ServerStepView::ReadGreeting, received, address) is Failed <==> !(received[0]
            == 5 && 1 <= received[1] <= 16),
        server_after(ServerStepView::ReadMethods { count }, received, address) is SendMethod
            <==> received.contains(0u8),
        server_after(ServerStepView::ReadMethods { count }, received, address) is SendNoMethod
            <==> !received.contains(0u8),
        server_after(ServerStepView::ReadRequest, received, address) is SendRefusal <==> !(
        received[0] == 5 && received[1] == 1 && received[2] == 0),
        received[0] == 5 && received[1] == 1 && received[2] == 0 ==> server_after(
            ServerStepView::ReadRequest,
            received,
            address,
        ) == host_step(received[3]),
{
}

} // verus!
