//! A SOCKS5 conversation as a whole: what the client is answered and what it
//! asks for, read off all that it sends.
use crate::address::{ipv4_text, ipv6_text};
use crate::address_reading::{
    group_at, groups_of, ipv4_text_names_its_address, ipv6_text_names_its_address, maps_ipv4,
    names_ipv4,
};
use crate::socks::{
    big_endian, method_reply, receive, request_reply, wanted, NextModel, SocksError, SocksModel,
    ADDRESS_TYPE_NOT_SUPPORTED, COMMAND_NOT_SUPPORTED,
};
use vstd::prelude::*;
use vstd::utf8::{
    decode_utf8, encode_utf8, encode_utf8_decode_utf8, encode_utf8_valid_utf8, valid_utf8,
};

verus! {

/// What a client's bytes come to.
pub enum Asked {
    /// More bytes are needed.
    Short,
    /// The client is sent away.
    Refused(SocksError),
    /// The client wants a connection; `rest` is what it sent behind the request.
    Target { host: Seq<char>, port: int, rest: Seq<u8> },
}

/// The kind of address, at its place in a request.
pub open spec fn kind(request: Seq<u8>) -> u8 {
    request[3]
}

/// Where the address begins in a request.
pub open spec fn address_start(request: Seq<u8>) -> int {
    if kind(request) == 3 {
        5
    } else {
        4
    }
}

/// How long the address is, where the request is long enough to tell.
pub open spec fn address_len(request: Seq<u8>) -> int {
    if kind(request) == 1 {
        4
    } else if kind(request) == 4 {
        16
    } else {
        request[4] as int
    }
}

/// The host that an address of the given kind names.
pub open spec fn host_of(kind: u8, address: Seq<u8>) -> Option<Seq<char>> {
    if kind == 1 {
        Some(ipv4_text(address))
    } else if kind == 4 {
        Some(ipv6_text(address))
    } else if valid_utf8(address) {
        Some(decode_utf8(address))
    } else {
        None
    }
}

/// The answer to a request, and what it asks for: version, command, a reserved
/// byte, the kind of address, the address and the port.
pub open spec fn request_dialogue(r: Seq<u8>) -> (Seq<u8>, Asked) {
    if r.len() < 4 {
        (seq![], Asked::Short)
    } else if r[0] != 5 {
        (seq![], Asked::Refused(SocksError::Version(r[0])))
    } else if kind(r) != 1 && kind(r) != 3 && kind(r) != 4 {
        (
            request_reply(ADDRESS_TYPE_NOT_SUPPORTED),
            Asked::Refused(SocksError::AddressType(kind(r))),
        )
    } else if r.len() < address_start(r) || r.len() < address_start(r) + address_len(r) {
        (seq![], Asked::Short)
    } else {
        let end = address_start(r) + address_len(r);
        match host_of(kind(r), r.subrange(address_start(r), end)) {
            None => (seq![], Asked::Refused(SocksError::Domain)),
            Some(host) => if r.len() < end + 2 {
                (seq![], Asked::Short)
            } else if r[1] != 1 {
                (
                    request_reply(COMMAND_NOT_SUPPORTED),
                    Asked::Refused(SocksError::Command(r[1])),
                )
            } else {
                (
                    seq![],
                    Asked::Target {
                        host,
                        port: big_endian(r.subrange(end, end + 2)),
                        rest: r.skip(end + 2),
                    },
                )
            },
        }
    }
}

/// The answers to all that a client sends, and what it asks for: a greeting of
/// version, number of methods and methods, and then a request.
pub open spec fn dialogue(input: Seq<u8>) -> (Seq<u8>, Asked) {
    if input.len() < 2 {
        (seq![], Asked::Short)
    } else if input[0] != 5 {
        (seq![], Asked::Refused(SocksError::Version(input[0])))
    } else if input.len() < 2 + input[1] {
        (seq![], Asked::Short)
    } else {
        let (replies, asked) = request_dialogue(input.skip(2 + input[1]));
        (method_reply() + replies, asked)
    }
}

/// How many more reads a state may need at most.
pub open spec fn reads_left(state: SocksModel) -> nat {
    match state {
        SocksModel::Greeting => 6,
        SocksModel::Methods(_) => 5,
        SocksModel::Request => 4,
        SocksModel::DomainLength(_) => 3,
        SocksModel::Domain(_, _) => 2,
        SocksModel::Ipv4(_) => 2,
        SocksModel::Ipv6(_) => 2,
        SocksModel::Port(_, _) => 1,
        _ => 0,
    }
}

/// A connection run on `input` from `state`: read what it wants, hand it over,
/// write the reply, and go on while it reads.
pub open spec fn drive(state: SocksModel, input: Seq<u8>) -> (Seq<u8>, Asked)
    decreases reads_left(state),
{
    match wanted(state) {
        None => (seq![], Asked::Short),
        Some(n) => if input.len() < n {
            (seq![], Asked::Short)
        } else {
            let (next_state, reply, next) = receive(state, input.take(n as int));
            let rest = input.skip(n as int);
            match next {
                NextModel::Read(_) => {
                    let (replies, asked) = drive(next_state, rest);
                    (reply + replies, asked)
                },
                NextModel::Connect { host, port } => (reply, Asked::Target { host, port, rest }),
                NextModel::Refuse(error) => (reply, Asked::Refused(error)),
                _ => (reply, Asked::Short),
            }
        },
    }
}

/// Where a connection is to go on reading, it names the number of bytes that
/// its new state wants; where it is not, the new state wants none.
pub proof fn next_read_is_what_is_wanted(state: SocksModel, b: Seq<u8>)
    requires
        wanted(state) == Some(b.len()),
    ensures
        match receive(state, b).2 {
            NextModel::Read(n) => wanted(receive(state, b).0) == Some(n),
            _ => wanted(receive(state, b).0) is None,
        },
{
}

proof fn lemma_port(cmd: u8, host: Seq<char>, r: Seq<u8>, end: int)
    requires
        0 <= end <= r.len(),
    ensures
        drive(SocksModel::Port(cmd, host), r.skip(end)) == (if r.len() < end + 2 {
            (Seq::<u8>::empty(), Asked::Short)
        } else if cmd != 1 {
            (
                request_reply(COMMAND_NOT_SUPPORTED),
                Asked::Refused(SocksError::Command(cmd)),
            )
        } else {
            (
                Seq::<u8>::empty(),
                Asked::Target {
                    host,
                    port: big_endian(r.subrange(end, end + 2)),
                    rest: r.skip(end + 2),
                },
            )
        }),
{
    if r.len() >= end + 2 {
        assert(r.skip(end).take(2) == r.subrange(end, end + 2));
        assert(r.skip(end).skip(2) == r.skip(end + 2));
    }
}

proof fn lemma_request(r: Seq<u8>)
    ensures
        drive(SocksModel::Request, r) == request_dialogue(r),
{
    let state = SocksModel::Request;
    if r.len() >= 4 {
        let head = r.take(4);
        assert(head[0] == r[0] && head[1] == r[1] && head[3] == r[3]);
        let rest = r.skip(4);
        let cmd = r[1];
        if r[0] == 5 && (kind(r) == 1 || kind(r) == 4) {
            let n = address_len(r);
            let next_state = if kind(r) == 1 {
                SocksModel::Ipv4(cmd)
            } else {
                SocksModel::Ipv6(cmd)
            };
            assert(receive(state, head).0 == next_state);
            if rest.len() >= n {
                assert(rest.take(n) == r.subrange(4, 4 + n));
                assert(rest.skip(n) == r.skip(4 + n));
                let host = host_of(kind(r), r.subrange(4, 4 + n))->0;
                lemma_port(cmd, host, r, 4 + n);
                let after = drive(SocksModel::Port(cmd, host), r.skip(4 + n));
                assert(drive(next_state, rest) == (Seq::<u8>::empty() + after.0, after.1));
                assert(Seq::<u8>::empty() + after.0 == after.0);
            }
            let after = drive(next_state, rest);
            assert(drive(state, r) == (Seq::<u8>::empty() + after.0, after.1));
            assert(Seq::<u8>::empty() + after.0 == after.0);
        } else if r[0] == 5 && kind(r) == 3 {
            let next_state = SocksModel::DomainLength(cmd);
            assert(receive(state, head).0 == next_state);
            if rest.len() >= 1 {
                assert(rest.take(1)[0] == r[4]);
                let n = r[4] as int;
                let tail = rest.skip(1);
                assert(tail == r.skip(5));
                let domain_state = SocksModel::Domain(cmd, r[4]);
                if tail.len() >= n {
                    assert(tail.take(n) == r.subrange(5, 5 + n));
                    assert(tail.skip(n) == r.skip(5 + n));
                    if valid_utf8(r.subrange(5, 5 + n)) {
                        let host = decode_utf8(r.subrange(5, 5 + n));
                        lemma_port(cmd, host, r, 5 + n);
                        let after = drive(SocksModel::Port(cmd, host), r.skip(5 + n));
                        assert(drive(domain_state, tail) == (
                            Seq::<u8>::empty() + after.0,
                            after.1,
                        ));
                        assert(Seq::<u8>::empty() + after.0 == after.0);
                    }
                }
                let after = drive(domain_state, tail);
                assert(drive(next_state, rest) == (Seq::<u8>::empty() + after.0, after.1));
                assert(Seq::<u8>::empty() + after.0 == after.0);
            }
            let after = drive(next_state, rest);
            assert(drive(state, r) == (Seq::<u8>::empty() + after.0, after.1));
            assert(Seq::<u8>::empty() + after.0 == after.0);
        }
    }
}

/// A connection answers what `dialogue` says, and comes to ask for what
/// `dialogue` reads in the client's bytes, whatever they are.
pub proof fn connection_follows_dialogue(input: Seq<u8>)
    ensures
        drive(SocksModel::Greeting, input) == dialogue(input),
{
    if input.len() >= 2 {
        let head = input.take(2);
        assert(head[0] == input[0] && head[1] == input[1]);
        if input[0] == 5 {
            let n = input[1] as int;
            let rest = input.skip(2);
            let methods = SocksModel::Methods(input[1]);
            if rest.len() >= n {
                assert(rest.skip(n) == input.skip(2 + n));
                lemma_request(input.skip(2 + n));
            }
            let after = drive(methods, rest);
            assert(drive(SocksModel::Greeting, input) == (Seq::<u8>::empty() + after.0, after.1));
            assert(Seq::<u8>::empty() + after.0 == after.0);
        }
    }
}

/// The bytes of a greeting that offers `methods`.
pub open spec fn greeting(methods: Seq<u8>) -> Seq<u8> {
    seq![5, methods.len() as u8] + methods
}

/// The bytes of a request; an address of the domain kind is led by its length.
pub open spec fn request(
    command: u8,
    reserved: u8,
    kind: u8,
    address: Seq<u8>,
    port: u16,
) -> Seq<u8> {
    let led = if kind == 3 {
        seq![address.len() as u8] + address
    } else {
        address
    };
    seq![5, command, reserved, kind] + led + seq![(port / 256) as u8, (port % 256) as u8]
}

/// Whether an address can stand in a request of that kind.
pub open spec fn fits(kind: u8, address: Seq<u8>) -> bool {
    ||| kind == 1 && address.len() == 4
    ||| kind == 3 && address.len() <= 255 && valid_utf8(address)
    ||| kind == 4 && address.len() == 16
}

proof fn lemma_request_parts(
    command: u8,
    reserved: u8,
    kind: u8,
    address: Seq<u8>,
    port: u16,
    rest: Seq<u8>,
)
    requires
        fits(kind, address),
    ensures
        ({
            let r = request(command, reserved, kind, address, port) + rest;
            let end = address_start(r) + address_len(r);
            &&& r.len() >= end + 2
            &&& r[0] == 5
            &&& r[1] == command
            &&& r[3] == kind
            &&& r.subrange(address_start(r), end) == address
            &&& big_endian(r.subrange(end, end + 2)) == port
            &&& r.skip(end + 2) == rest
        }),
{
    let r = request(command, reserved, kind, address, port) + rest;
    let end = address_start(r) + address_len(r);
    assert(r[3] == kind);
    if kind == 3 {
        assert(r[4] == address.len());
    }
    assert(r.subrange(address_start(r), end) == address);
    assert(r.subrange(end, end + 2) == seq![(port / 256) as u8, (port % 256) as u8]);
    assert(r.skip(end + 2) == rest);
}

proof fn lemma_after_greeting(methods: Seq<u8>, r: Seq<u8>)
    requires
        methods.len() <= 255,
    ensures
        dialogue(greeting(methods) + r) == (
            method_reply() + request_dialogue(r).0,
            request_dialogue(r).1,
        ),
{
    let input = greeting(methods) + r;
    assert(input[0] == 5 && input[1] == methods.len());
    assert(input.skip(2 + input[1]) == r);
}

/// A `CONNECT` request is understood: whatever methods are offered and
/// whatever is sent behind it, the target is the host that the address names
/// and the port of the request, and the one answer so far is that no
/// authentication is needed.
pub proof fn connect_request_is_understood(
    methods: Seq<u8>,
    reserved: u8,
    kind: u8,
    address: Seq<u8>,
    port: u16,
    rest: Seq<u8>,
)
    requires
        methods.len() <= 255,
        fits(kind, address),
    ensures
        dialogue(greeting(methods) + (request(1, reserved, kind, address, port) + rest)) == (
            method_reply(),
            Asked::Target { host: host_of(kind, address)->0, port: port as int, rest },
        ),
{
    let r = request(1, reserved, kind, address, port) + rest;
    lemma_request_parts(1, reserved, kind, address, port, rest);
    lemma_after_greeting(methods, r);
    assert(method_reply() + Seq::<u8>::empty() == method_reply());
}

/// A domain goes to the remote side as the client sent it.
pub proof fn domain_is_passed_on_unchanged(
    methods: Seq<u8>,
    reserved: u8,
    domain: Seq<char>,
    port: u16,
    rest: Seq<u8>,
)
    requires
        methods.len() <= 255,
        encode_utf8(domain).len() <= 255,
    ensures
        dialogue(
            greeting(methods) + (request(1, reserved, 3, encode_utf8(domain), port) + rest),
        ) == (method_reply(), Asked::Target { host: domain, port: port as int, rest }),
{
    encode_utf8_valid_utf8(domain);
    encode_utf8_decode_utf8(domain);
    connect_request_is_understood(methods, reserved, 3, encode_utf8(domain), port, rest);
}

/// Any command other than `CONNECT` is answered with code 7 and refused.
pub proof fn other_commands_are_refused(
    methods: Seq<u8>,
    command: u8,
    reserved: u8,
    kind: u8,
    address: Seq<u8>,
    port: u16,
    rest: Seq<u8>,
)
    requires
        methods.len() <= 255,
        command != 1,
        fits(kind, address),
    ensures
        dialogue(greeting(methods) + (request(command, reserved, kind, address, port) + rest)) == (
            method_reply() + request_reply(COMMAND_NOT_SUPPORTED),
            Asked::Refused(SocksError::Command(command)),
        ),
{
    let r = request(command, reserved, kind, address, port) + rest;
    lemma_request_parts(command, reserved, kind, address, port, rest);
    lemma_after_greeting(methods, r);
}

/// A request with an address of an unknown kind is answered with code 8 and
/// refused, whatever its command and whatever follows.
pub proof fn unknown_address_kinds_are_refused(
    methods: Seq<u8>,
    command: u8,
    reserved: u8,
    kind: u8,
    rest: Seq<u8>,
)
    requires
        methods.len() <= 255,
        kind != 1 && kind != 3 && kind != 4,
    ensures
        dialogue(greeting(methods) + (seq![5, command, reserved, kind] + rest)) == (
            method_reply() + request_reply(ADDRESS_TYPE_NOT_SUPPORTED),
            Asked::Refused(SocksError::AddressType(kind)),
        ),
{
    let r = seq![5u8, command, reserved, kind] + rest;
    assert(r[0] == 5 && r[3] == kind);
    lemma_after_greeting(methods, r);
}

/// Whatever a client sends, this is all that it is answered before a session is
/// opened: nothing at first, that no authentication is needed behind its
/// greeting, and one code behind that where its command or its kind of address
/// is not supported. A wrong version and a domain that is no text are refused
/// without a further word.
pub proof fn what_a_client_is_answered(input: Seq<u8>)
    ensures
        match dialogue(input).1 {
            Asked::Short => dialogue(input).0 == Seq::<u8>::empty() || dialogue(input).0
                == method_reply(),
            Asked::Target { .. } => dialogue(input).0 == method_reply(),
            Asked::Refused(SocksError::Version(v)) => v != 5 && (dialogue(input).0 == Seq::<
                u8,
            >::empty() || dialogue(input).0 == method_reply()),
            Asked::Refused(SocksError::Domain) => dialogue(input).0 == method_reply(),
            Asked::Refused(SocksError::AddressType(_)) => dialogue(input).0 == method_reply()
                + request_reply(ADDRESS_TYPE_NOT_SUPPORTED),
            Asked::Refused(SocksError::Command(c)) => c != 1 && dialogue(input).0 == method_reply()
                + request_reply(COMMAND_NOT_SUPPORTED),
        },
{
    assert(method_reply() + Seq::<u8>::empty() == method_reply());
}

/// A client that asks for an IPv4 address gets a session to that address: the
/// host that is connected to reads back as the four bytes that were sent.
pub proof fn ipv4_target_is_the_address_that_was_sent(
    methods: Seq<u8>,
    reserved: u8,
    address: Seq<u8>,
    port: u16,
    rest: Seq<u8>,
)
    requires
        methods.len() <= 255,
        address.len() == 4,
    ensures
        drive(
            SocksModel::Greeting,
            greeting(methods) + (request(1, reserved, 1, address, port) + rest),
        ).1 matches Asked::Target { host, port: asked, rest: behind } && names_ipv4(host, address)
            && asked == port && behind == rest,
{
    let input = greeting(methods) + (request(1, reserved, 1, address, port) + rest);
    connection_follows_dialogue(input);
    connect_request_is_understood(methods, reserved, 1, address, port, rest);
    ipv4_text_names_its_address(address);
}

/// A client that asks for an IPv6 address gets a session to that address: the
/// host that is connected to reads back as the sixteen bytes that were sent.
pub proof fn ipv6_target_is_the_address_that_was_sent(
    methods: Seq<u8>,
    reserved: u8,
    address: Seq<u8>,
    port: u16,
    rest: Seq<u8>,
)
    requires
        methods.len() <= 255,
        address.len() == 16,
    ensures
        drive(
            SocksModel::Greeting,
            greeting(methods) + (request(1, reserved, 4, address, port) + rest),
        ).1 matches Asked::Target { host, port: asked, rest: behind } && asked == port && behind
            == rest && (maps_ipv4(address) ==> host.len() > 7 && names_ipv4(
            host.skip(7),
            address.skip(12),
        )) && (!maps_ipv4(address) ==> forall|k: int|
            0 <= k < 8 ==> #[trigger] groups_of(host)[k] == group_at(address, k)),
{
    let input = greeting(methods) + (request(1, reserved, 4, address, port) + rest);
    connection_follows_dialogue(input);
    connect_request_is_understood(methods, reserved, 4, address, port, rest);
    ipv6_text_names_its_address(address);
}

/// Any version but 5 is refused without an answer to the message that names it,
/// in the greeting and in the request.
pub proof fn other_versions_are_refused(
    methods: Seq<u8>,
    version: u8,
    a: u8,
    b: u8,
    c: u8,
    rest: Seq<u8>,
)
    requires
        methods.len() <= 255,
        version != 5,
    ensures
        drive(SocksModel::Greeting, seq![version, a] + rest) == (
            Seq::<u8>::empty(),
            Asked::Refused(SocksError::Version(version)),
        ),
        drive(SocksModel::Greeting, greeting(methods) + (seq![version, a, b, c] + rest)) == (
            seq![5u8, 0],
            Asked::Refused(SocksError::Version(version)),
        ),
{
    let first = seq![version, a] + rest;
    connection_follows_dialogue(first);
    assert(first[0] == version);
    let r = seq![version, a, b, c] + rest;
    connection_follows_dialogue(greeting(methods) + r);
    lemma_after_greeting(methods, r);
    assert(r[0] == version);
    assert(method_reply() + Seq::<u8>::empty() == seq![5u8, 0]);
}

/// A domain that is no text in UTF-8 is refused without an answer to the request.
pub proof fn domain_that_is_no_text_is_refused(
    methods: Seq<u8>,
    command: u8,
    reserved: u8,
    domain: Seq<u8>,
    rest: Seq<u8>,
)
    requires
        methods.len() <= 255,
        domain.len() <= 255,
        !valid_utf8(domain),
    ensures
        drive(
            SocksModel::Greeting,
            greeting(methods) + (seq![5, command, reserved, 3, domain.len() as u8] + domain + rest),
        ) == (seq![5u8, 0], Asked::Refused(SocksError::Domain)),
{
    let r = seq![5u8, command, reserved, 3, domain.len() as u8] + domain + rest;
    connection_follows_dialogue(greeting(methods) + r);
    lemma_after_greeting(methods, r);
    assert(r[0] == 5 && r[3] == 3 && r[4] == domain.len());
    assert(r.subrange(5, 5 + domain.len() as int) == domain);
    assert(method_reply() + Seq::<u8>::empty() == seq![5u8, 0]);
}

/// The refusals that are answered: a command other than `CONNECT` gets code 7,
/// and a kind of address other than the three gets code 8.
pub proof fn refusals_are_answered_with_a_code(
    methods: Seq<u8>,
    command: u8,
    reserved: u8,
    kind: u8,
    address: Seq<u8>,
    port: u16,
    rest: Seq<u8>,
)
    requires
        methods.len() <= 255,
    ensures
        command != 1 && fits(kind, address) ==> drive(
            SocksModel::Greeting,
            greeting(methods) + (request(command, reserved, kind, address, port) + rest),
        ) == (
            seq![5u8, 0, 5, 7, 0, 1, 0, 0, 0, 0, 0, 0],
            Asked::Refused(SocksError::Command(command)),
        ),
        kind != 1 && kind != 3 && kind != 4 ==> drive(
            SocksModel::Greeting,
            greeting(methods) + (seq![5, command, reserved, kind] + rest),
        ) == (
            seq![5u8, 0, 5, 8, 0, 1, 0, 0, 0, 0, 0, 0],
            Asked::Refused(SocksError::AddressType(kind)),
        ),
{
    if command != 1 && fits(kind, address) {
        let r = request(command, reserved, kind, address, port) + rest;
        connection_follows_dialogue(greeting(methods) + r);
        other_commands_are_refused(methods, command, reserved, kind, address, port, rest);
        assert(method_reply() + request_reply(COMMAND_NOT_SUPPORTED) == seq![
            5u8,
            0,
            5,
            7,
            0,
            1,
            0,
            0,
            0,
            0,
            0,
            0,
        ]);
    }
    if kind != 1 && kind != 3 && kind != 4 {
        let r = seq![5, command, reserved, kind] + rest;
        connection_follows_dialogue(greeting(methods) + r);
        unknown_address_kinds_are_refused(methods, command, reserved, kind, rest);
        assert(method_reply() + request_reply(ADDRESS_TYPE_NOT_SUPPORTED) == seq![
            5u8,
            0,
            5,
            8,
            0,
            1,
            0,
            0,
            0,
            0,
            0,
            0,
        ]);
    }
}

/// A target that is asked for is the host of the request and its port, with the
/// one answer so far that no authentication is needed.
pub proof fn domain_target_is_the_domain_that_was_sent(
    methods: Seq<u8>,
    reserved: u8,
    domain: Seq<char>,
    port: u16,
    rest: Seq<u8>,
)
    requires
        methods.len() <= 255,
        encode_utf8(domain).len() <= 255,
    ensures
        drive(
            SocksModel::Greeting,
            greeting(methods) + (request(1, reserved, 3, encode_utf8(domain), port) + rest),
        ) == (seq![5u8, 0], (Asked::Target { host: domain, port: port as int, rest })),
{
    connection_follows_dialogue(
        greeting(methods) + (request(1, reserved, 3, encode_utf8(domain), port) + rest),
    );
    domain_is_passed_on_unchanged(methods, reserved, domain, port, rest);
}

/// A client that has not sent all of its greeting is not answered, and one that
/// has not sent all of its request has only been told that no authentication is
/// needed. Nothing is decided before the first four bytes of the request, and,
/// for a kind of address that there is, before its port.
pub proof fn unfinished_conversation_waits(
    methods: Seq<u8>,
    command: u8,
    reserved: u8,
    kind: u8,
    address: Seq<u8>,
    port: u16,
    head: Seq<u8>,
    n: int,
)
    requires
        methods.len() <= 255,
        fits(kind, address),
        head.len() < 4,
    ensures
        0 <= n < greeting(methods).len() ==> drive(
            SocksModel::Greeting,
            greeting(methods).take(n),
        ) == (Seq::<u8>::empty(), Asked::Short),
        head.len() < 2 ==> drive(SocksModel::Greeting, head) == (
            Seq::<u8>::empty(),
            Asked::Short,
        ),
        drive(SocksModel::Greeting, greeting(methods) + head) == (seq![5u8, 0], Asked::Short),
        0 <= n < request(command, reserved, kind, address, port).len() ==> drive(
            SocksModel::Greeting,
            greeting(methods) + request(command, reserved, kind, address, port).take(n),
        ) == (seq![5u8, 0], Asked::Short),
{
    let none = Seq::<u8>::empty();
    assert(method_reply() + none == seq![5u8, 0]);
    let hello = greeting(methods);
    if 0 <= n < hello.len() {
        let input = hello.take(n);
        connection_follows_dialogue(input);
        if n >= 2 {
            assert(input[0] == 5 && input[1] == methods.len());
        }
    }
    connection_follows_dialogue(head);
    connection_follows_dialogue(hello + head);
    lemma_after_greeting(methods, head);
    let whole = request(command, reserved, kind, address, port);
    if 0 <= n < whole.len() {
        let r = whole.take(n);
        connection_follows_dialogue(hello + r);
        lemma_after_greeting(methods, r);
        lemma_request_parts(command, reserved, kind, address, port, none);
        assert(whole + none == whole);
        if n >= 4 {
            assert(r[0] == 5 && r[3] == kind);
            if kind == 3 && n >= 5 {
                assert(r[4] == whole[4]);
            }
            let end = address_start(whole) + address_len(whole);
            if n >= end {
                assert(r.subrange(address_start(whole), end) == address);
            }
        }
    }
}

} // verus!
