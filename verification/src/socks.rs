//! One SOCKS5 client (RFC 1928) of the `-D` proxy: no authentication, `CONNECT`
//! only, with an IPv4, domain or IPv6 target.
//!
//! `SocksConn` is told what was read and says what to write and what comes
//! next. A domain is handed on as it was sent: it is looked up by the remote
//! side.
use crate::address::{format_ipv4, format_ipv6, ipv4_text, ipv6_text};
use crate::text::{decimal_text, push_decimal, text_from_utf8};
use vstd::prelude::*;
use vstd::slice::*;
use vstd::string::*;
use vstd::utf8::{decode_utf8, valid_utf8};

verus! {

/// Why a client is sent away.
#[derive(Clone, Copy, Debug, PartialEq, Eq, Structural)]
pub enum SocksError {
    /// Neither message may name a version other than 5.
    Version(u8),
    /// The address is of none of the three kinds.
    AddressType(u8),
    /// The domain is not UTF-8.
    Domain,
    /// The command is not `CONNECT`.
    Command(u8),
}

impl SocksError {
    pub open spec fn text(self) -> Seq<char> {
        match self {
            SocksError::Version(v) => "неподдерживаемая версия SOCKS: "@ + decimal_text(v as nat),
            SocksError::AddressType(a) => "неподдерживаемый ATYP "@ + decimal_text(a as nat),
            SocksError::Domain => "некорректный домен в SOCKS-запросе"@,
            SocksError::Command(c) => "неподдерживаемая SOCKS-команда "@ + decimal_text(c as nat)
                + " (поддерживается только CONNECT)"@,
        }
    }

    /// The error in words.
    pub fn message(&self) -> (t: String)
        ensures
            t@ == self.text(),
    {
        let mut out: String = String::new();
        match self {
            SocksError::Version(v) => {
                out.append("неподдерживаемая версия SOCKS: ");
                push_decimal(&mut out, *v as u128);
            },
            SocksError::AddressType(a) => {
                out.append("неподдерживаемый ATYP ");
                push_decimal(&mut out, *a as u128);
            },
            SocksError::Domain => {
                out.append("некорректный домен в SOCKS-запросе");
            },
            SocksError::Command(c) => {
                out.append("неподдерживаемая SOCKS-команда ");
                push_decimal(&mut out, *c as u128);
                out.append(" (поддерживается только CONNECT)");
            },
        }
        assert(out@ == self.text());
        out
    }
}

/// How far a client has got.
pub enum SocksState {
    /// The version and the number of methods come next.
    Greeting,
    /// So many methods come next.
    Methods(u8),
    /// Version, command, a reserved byte and the kind of address come next.
    Request,
    /// The command is known and an IPv4 address comes next.
    Ipv4(u8),
    /// The command is known and the length of a domain comes next.
    DomainLength(u8),
    /// The command is known and a domain of that many bytes comes next.
    Domain(u8, u8),
    /// The command is known and an IPv6 address comes next.
    Ipv6(u8),
    /// Command and host are known and the port comes next.
    Port(u8, String),
    /// The session to the target is being opened.
    Opening,
    /// Bytes go through unchanged.
    Relaying,
    /// The client was sent away.
    Closed,
}

/// `SocksState` with the host as its characters.
pub enum SocksModel {
    Greeting,
    Methods(u8),
    Request,
    Ipv4(u8),
    DomainLength(u8),
    Domain(u8, u8),
    Ipv6(u8),
    Port(u8, Seq<char>),
    Opening,
    Relaying,
    Closed,
}

impl View for SocksState {
    type V = SocksModel;

    open spec fn view(&self) -> SocksModel {
        match *self {
            SocksState::Greeting => SocksModel::Greeting,
            SocksState::Methods(n) => SocksModel::Methods(n),
            SocksState::Request => SocksModel::Request,
            SocksState::Ipv4(c) => SocksModel::Ipv4(c),
            SocksState::DomainLength(c) => SocksModel::DomainLength(c),
            SocksState::Domain(c, n) => SocksModel::Domain(c, n),
            SocksState::Ipv6(c) => SocksModel::Ipv6(c),
            SocksState::Port(c, host) => SocksModel::Port(c, host@),
            SocksState::Opening => SocksModel::Opening,
            SocksState::Relaying => SocksModel::Relaying,
            SocksState::Closed => SocksModel::Closed,
        }
    }
}

/// What comes after the reply was written.
pub enum SocksNext {
    /// Read exactly so many bytes and hand them to `on_bytes`.
    Read(usize),
    /// Open a session to this target and tell `on_session` how it went.
    Connect { host: String, port: i32 },
    /// Let bytes through between client and session.
    Relay,
    /// Close the connection; the error is this one.
    Refuse(SocksError),
    /// Close the connection; the error is that of the session.
    GiveUp,
}

/// `SocksNext` with the host as its characters.
pub enum NextModel {
    Read(nat),
    Connect { host: Seq<char>, port: int },
    Relay,
    Refuse(SocksError),
    GiveUp,
}

impl View for SocksNext {
    type V = NextModel;

    open spec fn view(&self) -> NextModel {
        match *self {
            SocksNext::Read(n) => NextModel::Read(n as nat),
            SocksNext::Connect { host, port } => NextModel::Connect {
                host: host@,
                port: port as int,
            },
            SocksNext::Relay => NextModel::Relay,
            SocksNext::Refuse(e) => NextModel::Refuse(e),
            SocksNext::GiveUp => NextModel::GiveUp,
        }
    }
}

/// What to do: write `reply`, which may be empty, and then `next`.
pub struct SocksStep {
    pub reply: Vec<u8>,
    pub next: SocksNext,
}

impl SocksStep {
    /// Whether a reply that could not be written is an error. It is not where
    /// the connection is closed anyway.
    pub fn reply_must_arrive(&self) -> (must: bool)
        ensures
            must == must_arrive(self.next@),
            must == !(self.next@ is Refuse || self.next@ is GiveUp),
    {
        match self.next {
            SocksNext::Refuse(_) => false,
            SocksNext::GiveUp => false,
            _ => true,
        }
    }
}

/// The answer to the greeting: version 5, no authentication.
pub open spec fn method_reply() -> Seq<u8> {
    seq![0x05, 0x00]
}

/// The answer to a request: version 5, the code, and an IPv4 address and port
/// of zeros.
pub open spec fn request_reply(code: u8) -> Seq<u8> {
    seq![0x05, code, 0x00, 0x01, 0, 0, 0, 0, 0, 0]
}

pub const SUCCEEDED: u8 = 0x00;

pub const CONNECTION_REFUSED: u8 = 0x05;

pub const COMMAND_NOT_SUPPORTED: u8 = 0x07;

pub const ADDRESS_TYPE_NOT_SUPPORTED: u8 = 0x08;

/// How many bytes a state has to read next.
pub open spec fn wanted(state: SocksModel) -> Option<nat> {
    match state {
        SocksModel::Greeting => Some(2),
        SocksModel::Methods(n) => Some(n as nat),
        SocksModel::Request => Some(4),
        SocksModel::Ipv4(_) => Some(4),
        SocksModel::DomainLength(_) => Some(1),
        SocksModel::Domain(_, n) => Some(n as nat),
        SocksModel::Ipv6(_) => Some(16),
        SocksModel::Port(_, _) => Some(2),
        _ => None,
    }
}

/// A state that goes on reading, after `reply`.
pub open spec fn reads_on(reply: Seq<u8>, state: SocksModel) -> (SocksModel, Seq<u8>, NextModel) {
    (state, reply, NextModel::Read(wanted(state)->0))
}

/// A client that is sent away, after `reply`.
pub open spec fn refuses(reply: Seq<u8>, error: SocksError) -> (SocksModel, Seq<u8>, NextModel) {
    (SocksModel::Closed, reply, NextModel::Refuse(error))
}

pub open spec fn big_endian(b: Seq<u8>) -> int {
    b[0] * 256 + b[1]
}

/// What follows in `state` from the bytes that it wanted: the new state, the
/// reply and what comes next.
pub open spec fn receive(state: SocksModel, b: Seq<u8>) -> (SocksModel, Seq<u8>, NextModel) {
    match state {
        SocksModel::Greeting => if b[0] != 5 {
            refuses(seq![], SocksError::Version(b[0]))
        } else {
            reads_on(seq![], SocksModel::Methods(b[1]))
        },
        SocksModel::Methods(_) => reads_on(method_reply(), SocksModel::Request),
        SocksModel::Request => if b[0] != 5 {
            refuses(seq![], SocksError::Version(b[0]))
        } else if b[3] == 1 {
            reads_on(seq![], SocksModel::Ipv4(b[1]))
        } else if b[3] == 3 {
            reads_on(seq![], SocksModel::DomainLength(b[1]))
        } else if b[3] == 4 {
            reads_on(seq![], SocksModel::Ipv6(b[1]))
        } else {
            refuses(request_reply(ADDRESS_TYPE_NOT_SUPPORTED), SocksError::AddressType(b[3]))
        },
        SocksModel::Ipv4(cmd) => reads_on(seq![], SocksModel::Port(cmd, ipv4_text(b))),
        SocksModel::DomainLength(cmd) => reads_on(seq![], SocksModel::Domain(cmd, b[0])),
        SocksModel::Domain(cmd, _) => if valid_utf8(b) {
            reads_on(seq![], SocksModel::Port(cmd, decode_utf8(b)))
        } else {
            refuses(seq![], SocksError::Domain)
        },
        SocksModel::Ipv6(cmd) => reads_on(seq![], SocksModel::Port(cmd, ipv6_text(b))),
        SocksModel::Port(cmd, host) => if cmd != 1 {
            refuses(request_reply(COMMAND_NOT_SUPPORTED), SocksError::Command(cmd))
        } else {
            (
                SocksModel::Opening,
                seq![],
                NextModel::Connect { host, port: big_endian(b) },
            )
        },
        _ => (state, seq![], NextModel::GiveUp),
    }
}

/// What follows from a session to the target that was opened or not.
pub open spec fn session_ends_in(opened: bool) -> (SocksModel, Seq<u8>, NextModel) {
    if opened {
        (SocksModel::Relaying, request_reply(SUCCEEDED), NextModel::Relay)
    } else {
        (SocksModel::Closed, request_reply(CONNECTION_REFUSED), NextModel::GiveUp)
    }
}

/// Whether a reply before `next` has to arrive.
pub open spec fn must_arrive(next: NextModel) -> bool {
    !(next is Refuse || next is GiveUp)
}

fn reply_with(code: u8) -> (reply: Vec<u8>)
    ensures
        reply@ == request_reply(code),
{
    let reply: Vec<u8> = vec![0x05, code, 0x00, 0x01, 0, 0, 0, 0, 0, 0];
    assert(reply@ == request_reply(code));
    reply
}

/// One client of the proxy.
pub struct SocksConn {
    state: SocksState,
}

impl View for SocksConn {
    type V = SocksModel;

    closed spec fn view(&self) -> SocksModel {
        self.state@
    }
}

impl SocksConn {
    /// A client that has just connected.
    pub fn new() -> (conn: SocksConn)
        ensures
            conn@ == SocksModel::Greeting,
    {
        SocksConn { state: SocksState::Greeting }
    }

    /// How many bytes to read for `on_bytes`, if any.
    pub fn wanted(&self) -> (n: Option<usize>)
        ensures
            match n {
                Some(n) => wanted(self@) == Some(n as nat),
                None => wanted(self@) is None,
            },
    {
        match &self.state {
            SocksState::Greeting => Some(2),
            SocksState::Methods(n) => Some(*n as usize),
            SocksState::Request => Some(4),
            SocksState::Ipv4(_) => Some(4),
            SocksState::DomainLength(_) => Some(1),
            SocksState::Domain(_, n) => Some(*n as usize),
            SocksState::Ipv6(_) => Some(16),
            SocksState::Port(_, _) => Some(2),
            _ => None,
        }
    }

    fn read_on(&mut self, reply: Vec<u8>, state: SocksState) -> (step: SocksStep)
        requires
            wanted(state@) is Some,
        ensures
            (final(self)@, step.reply@, step.next@) == reads_on(reply@, state@),
    {
        self.state = state;
        let n: usize = match self.wanted() {
            Some(n) => n,
            None => 0,
        };
        SocksStep { reply, next: SocksNext::Read(n) }
    }

    fn refuse(&mut self, reply: Vec<u8>, error: SocksError) -> (step: SocksStep)
        ensures
            (final(self)@, step.reply@, step.next@) == refuses(reply@, error),
    {
        self.state = SocksState::Closed;
        SocksStep { reply, next: SocksNext::Refuse(error) }
    }

    /// Takes in the bytes that `wanted` asked for.
    pub fn on_bytes(&mut self, bytes: &[u8]) -> (step: SocksStep)
        requires
            wanted(old(self)@) == Some(bytes@.len()),
        ensures
            (final(self)@, step.reply@, step.next@) == receive(old(self)@, bytes@),
    {
        let mut state: SocksState = SocksState::Closed;
        std::mem::swap(&mut state, &mut self.state);
        let none: Vec<u8> = Vec::new();
        assert(none@ == Seq::<u8>::empty());
        match state {
            SocksState::Greeting => if bytes[0] != 5 {
                self.refuse(none, SocksError::Version(bytes[0]))
            } else {
                self.read_on(none, SocksState::Methods(bytes[1]))
            },
            SocksState::Methods(_) => {
                let reply: Vec<u8> = vec![0x05, 0x00];
                assert(reply@ == method_reply());
                self.read_on(reply, SocksState::Request)
            },
            SocksState::Request => {
                let cmd: u8 = bytes[1];
                let kind: u8 = bytes[3];
                if bytes[0] != 5 {
                    self.refuse(none, SocksError::Version(bytes[0]))
                } else if kind == 1 {
                    self.read_on(none, SocksState::Ipv4(cmd))
                } else if kind == 3 {
                    self.read_on(none, SocksState::DomainLength(cmd))
                } else if kind == 4 {
                    self.read_on(none, SocksState::Ipv6(cmd))
                } else {
                    self.refuse(
                        reply_with(ADDRESS_TYPE_NOT_SUPPORTED),
                        SocksError::AddressType(kind),
                    )
                }
            },
            SocksState::Ipv4(cmd) => {
                let host: String = format_ipv4(bytes);
                self.read_on(none, SocksState::Port(cmd, host))
            },
            SocksState::DomainLength(cmd) => self.read_on(
                none,
                SocksState::Domain(cmd, bytes[0]),
            ),
            SocksState::Domain(cmd, _) => match text_from_utf8(slice_to_vec(bytes)) {
                Some(host) => self.read_on(none, SocksState::Port(cmd, host)),
                None => self.refuse(none, SocksError::Domain),
            },
            SocksState::Ipv6(cmd) => {
                let host: String = format_ipv6(bytes);
                self.read_on(none, SocksState::Port(cmd, host))
            },
            SocksState::Port(cmd, host) => if cmd != 1 {
                self.refuse(reply_with(COMMAND_NOT_SUPPORTED), SocksError::Command(cmd))
            } else {
                let port: i32 = (bytes[0] as i32) * 256 + (bytes[1] as i32);
                self.state = SocksState::Opening;
                SocksStep { reply: none, next: SocksNext::Connect { host, port } }
            },
            other => {
                self.state = other;
                SocksStep { reply: none, next: SocksNext::GiveUp }
            },
        }
    }

    /// Takes in whether the session to the target was opened: the client is
    /// told, and bytes go through or the connection is closed.
    pub fn on_session(&mut self, opened: bool) -> (step: SocksStep)
        requires
            old(self)@ is Opening,
        ensures
            (final(self)@, step.reply@, step.next@) == session_ends_in(opened),
            opened ==> final(self)@ is Relaying && step.reply@ == request_reply(SUCCEEDED)
                && step.next@ == NextModel::Relay,
            !opened ==> final(self)@ is Closed && step.reply@ == request_reply(CONNECTION_REFUSED)
                && step.next@ == NextModel::GiveUp,
    {
        if opened {
            self.state = SocksState::Relaying;
            SocksStep { reply: reply_with(SUCCEEDED), next: SocksNext::Relay }
        } else {
            self.state = SocksState::Closed;
            SocksStep { reply: reply_with(CONNECTION_REFUSED), next: SocksNext::GiveUp }
        }
    }
}

// ---- laws ----

/// What a client is told of its session: that it has succeeded, and bytes go
/// through; or that the connection was refused, and it is closed.
pub proof fn client_is_told_of_its_session()
    ensures
        session_ends_in(true).0 is Relaying,
        session_ends_in(true).1 == seq![5u8, 0, 0, 1, 0, 0, 0, 0, 0, 0],
        session_ends_in(true).2 is Relay,
        session_ends_in(false).0 is Closed,
        session_ends_in(false).1 == seq![5u8, 5, 0, 1, 0, 0, 0, 0, 0, 0],
        session_ends_in(false).2 is GiveUp,
{
}

/// A reply has to arrive where the conversation goes on behind it, and need not
/// where the connection is closed.
pub proof fn reply_to_a_lost_client_need_not_arrive(
    n: nat,
    host: Seq<char>,
    port: int,
    error: SocksError,
)
    ensures
        must_arrive(NextModel::Read(n)),
        must_arrive((NextModel::Connect { host, port })),
        must_arrive(NextModel::Relay),
        !must_arrive(NextModel::Refuse(error)),
        !must_arrive(NextModel::GiveUp),
{
}

/// The bytes of the answers: version 5 without authentication, and version 5 with
/// a code and an address of zeros.
pub proof fn answers_are_these_bytes(code: u8)
    ensures
        method_reply() == seq![5u8, 0],
        request_reply(code) == seq![5u8, code, 0, 1, 0, 0, 0, 0, 0, 0],
        SUCCEEDED == 0,
        CONNECTION_REFUSED == 5,
        COMMAND_NOT_SUPPORTED == 7,
        ADDRESS_TYPE_NOT_SUPPORTED == 8,
{
}

/// Each error names the byte that is not supported.
pub proof fn errors_name_what_is_not_supported(b: u8)
    ensures
        SocksError::Version(b).text() == "неподдерживаемая версия SOCKS: "@ + decimal_text(b as nat),
        SocksError::AddressType(b).text() == "неподдерживаемый ATYP "@ + decimal_text(b as nat),
        SocksError::Domain.text() == "некорректный домен в SOCKS-запросе"@,
        SocksError::Command(b).text() == "неподдерживаемая SOCKS-команда "@ + decimal_text(b as nat)
            + " (поддерживается только CONNECT)"@,
{
}

/// What is read of the next step is what it holds.
pub proof fn steps_hold_what_was_read(n: usize, host: String, port: i32, error: SocksError)
    ensures
        SocksNext::Read(n)@ == NextModel::Read(n as nat),
        (SocksNext::Connect { host, port })@ == (NextModel::Connect { host: host@, port: port as int }),
        SocksNext::Relay@ is Relay,
        SocksNext::Refuse(error)@ == NextModel::Refuse(error),
        SocksNext::GiveUp@ is GiveUp,
{
}

} // verus!
