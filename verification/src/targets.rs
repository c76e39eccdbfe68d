//! What the command line of the port forwarding client names: forwards, proxies
//! and targets.
use crate::colons::{
    bracketed_text_is_one_part, colon_outside_brackets_cuts, colon_parts, ends_outside,
    has_no_brackets, has_no_colon, plain_text_is_one_part, split_colon_aware, strip_brackets,
    unbracketed,
};
use crate::text::{
    decimal_reads_back, decimal_text, decimal_up_to, decimal_value, is_digit, read_u16,
    what_a_number_is,
};
use vstd::prelude::*;
use vstd::string::*;

verus! {

/// `-L`: connections to `bind:lport` go to `rhost:rport` on the remote side,
/// each through a session of its own.
pub struct ForwardSpec {
    pub bind: String,
    pub lport: u16,
    pub rhost: String,
    pub rport: u16,
}

/// `-D`: a SOCKS5 proxy on `bind:port`. Each client names its own target.
pub struct SocksSpec {
    pub bind: String,
    pub port: u16,
}

pub struct ForwardModel {
    pub bind: Seq<char>,
    pub lport: u16,
    pub rhost: Seq<char>,
    pub rport: u16,
}

pub struct ProxyModel {
    pub bind: Seq<char>,
    pub port: u16,
}

impl DeepView for ForwardSpec {
    type V = ForwardModel;

    open spec fn deep_view(&self) -> ForwardModel {
        ForwardModel {
            bind: self.bind@,
            lport: self.lport,
            rhost: self.rhost@,
            rport: self.rport,
        }
    }
}

impl DeepView for SocksSpec {
    type V = ProxyModel;

    open spec fn deep_view(&self) -> ProxyModel {
        ProxyModel { bind: self.bind@, port: self.port }
    }
}

/// The port that a text names.
pub open spec fn port_of(s: Seq<char>) -> Option<u16> {
    match decimal_up_to(s, u16::MAX as nat) {
        Some(n) => Some(n as u16),
        None => None,
    }
}

/// Where a listener is bound if the command line does not say.
pub open spec fn default_bind() -> Seq<char> {
    "127.0.0.1"@
}

/// The forward with these parts, if both ports are ports.
pub open spec fn forward_from(
    bind: Seq<char>,
    lport: Seq<char>,
    rhost: Seq<char>,
    rport: Seq<char>,
) -> Option<ForwardModel> {
    match (port_of(lport), port_of(rport)) {
        (Some(lport), Some(rport)) => Some(
            ForwardModel { bind, lport, rhost: unbracketed(rhost), rport },
        ),
        _ => None,
    }
}

/// The forward that `[bind:]lport:rhost:rport` names.
pub open spec fn forward_of(s: Seq<char>) -> Option<ForwardModel> {
    let p = colon_parts(s);
    if p.len() == 3 {
        forward_from(default_bind(), p[0], p[1], p[2])
    } else if p.len() == 4 {
        forward_from(unbracketed(p[0]), p[1], p[2], p[3])
    } else {
        None
    }
}

/// The proxy that `[bind:]port` names.
pub open spec fn proxy_of(s: Seq<char>) -> Option<ProxyModel> {
    let p = colon_parts(s);
    if p.len() == 1 {
        match port_of(p[0]) {
            Some(port) => Some(ProxyModel { bind: default_bind(), port }),
            None => None,
        }
    } else if p.len() == 2 {
        match port_of(p[1]) {
            Some(port) => Some(ProxyModel { bind: unbracketed(p[0]), port }),
            None => None,
        }
    } else {
        None
    }
}

/// The host and port that `rhost:rport` names.
pub open spec fn host_port_of(s: Seq<char>) -> Option<(Seq<char>, u16)> {
    let p = colon_parts(s);
    if p.len() == 2 {
        match port_of(p[1]) {
            Some(port) => Some((unbracketed(p[0]), port)),
            None => None,
        }
    } else {
        None
    }
}

fn make_forward(bind: String, lport: &str, rhost: &str, rport: &str) -> (f: Option<ForwardSpec>)
    ensures
        f.deep_view() == forward_from(bind@, lport@, rhost@, rport@),
{
    match (read_u16(lport), read_u16(rport)) {
        (Some(lport), Some(rport)) => Some(
            ForwardSpec { bind, lport, rhost: strip_brackets(rhost), rport },
        ),
        _ => None,
    }
}

/// Reads `[bind:]lport:rhost:rport`; the bind address is 127.0.0.1 where none
/// is given.
pub fn parse_forward_spec(s: &str) -> (f: Option<ForwardSpec>)
    ensures
        f.deep_view() == forward_of(s@),
{
    let parts: Vec<String> = split_colon_aware(s);
    let ghost p = parts.deep_view();
    if parts.len() == 3 {
        assert(p[0] == parts@[0]@ && p[1] == parts@[1]@ && p[2] == parts@[2]@);
        make_forward(
            "127.0.0.1".to_owned(),
            parts[0].as_str(),
            parts[1].as_str(),
            parts[2].as_str(),
        )
    } else if parts.len() == 4 {
        assert(p[0] == parts@[0]@ && p[1] == parts@[1]@ && p[2] == parts@[2]@ && p[3]
            == parts@[3]@);
        make_forward(
            strip_brackets(parts[0].as_str()),
            parts[1].as_str(),
            parts[2].as_str(),
            parts[3].as_str(),
        )
    } else {
        None
    }
}

/// Reads `[bind:]port`; the bind address is 127.0.0.1 where none is given.
pub fn parse_socks_spec(s: &str) -> (f: Option<SocksSpec>)
    ensures
        f.deep_view() == proxy_of(s@),
{
    let parts: Vec<String> = split_colon_aware(s);
    let ghost p = parts.deep_view();
    if parts.len() == 1 {
        assert(p[0] == parts@[0]@);
        match read_u16(parts[0].as_str()) {
            Some(port) => Some(SocksSpec { bind: "127.0.0.1".to_owned(), port }),
            None => None,
        }
    } else if parts.len() == 2 {
        assert(p[0] == parts@[0]@ && p[1] == parts@[1]@);
        match read_u16(parts[1].as_str()) {
            Some(port) => Some(SocksSpec { bind: strip_brackets(parts[0].as_str()), port }),
            None => None,
        }
    } else {
        None
    }
}

/// Reads `rhost:rport`.
pub fn parse_host_port(s: &str) -> (f: Option<(String, u16)>)
    ensures
        f.deep_view() == host_port_of(s@),
{
    let parts: Vec<String> = split_colon_aware(s);
    let ghost p = parts.deep_view();
    if parts.len() == 2 {
        assert(p[0] == parts@[0]@ && p[1] == parts@[1]@);
        match read_u16(parts[1].as_str()) {
            Some(port) => Some((strip_brackets(parts[0].as_str()), port)),
            None => None,
        }
    } else {
        None
    }
}

// ---- laws ----

pub open spec fn in_brackets(s: Seq<char>) -> Seq<char> {
    seq!['['] + s + seq![']']
}

proof fn lemma_port_text(port: u16)
    ensures
        port_of(decimal_text(port as nat)) == Some(port),
        colon_parts(decimal_text(port as nat)) == seq![decimal_text(port as nat)],
        ends_outside(decimal_text(port as nat)),
{
    let t = decimal_text(port as nat);
    decimal_reads_back(port as nat);
    assert forall|i: int| 0 <= i < t.len() implies #[trigger] t[i] != ':' && t[i] != '[' && t[i]
        != ']' by {
        assert(is_digit(t[i]));
    }
    plain_text_is_one_part(t);
}

/// Any hosts, IPv6 literals with their colons too, can be named in brackets:
/// `[bind]:lport:[rhost]:rport` names just these. Only hosts that hold brackets
/// themselves cannot.
pub proof fn bracketed_forward_reads_back(f: ForwardModel)
    requires
        has_no_brackets(f.bind),
        has_no_brackets(f.rhost),
    ensures
        forward_of(
            in_brackets(f.bind).push(':') + (decimal_text(f.lport as nat).push(':') + (in_brackets(
                f.rhost,
            ).push(':') + decimal_text(f.rport as nat))),
        ) == Some(f),
{
    let b = in_brackets(f.bind);
    let l = decimal_text(f.lport as nat);
    let h = in_brackets(f.rhost);
    let r = decimal_text(f.rport as nat);
    bracketed_text_is_one_part(f.bind);
    bracketed_text_is_one_part(f.rhost);
    lemma_port_text(f.lport);
    lemma_port_text(f.rport);
    colon_outside_brackets_cuts(h, r);
    colon_outside_brackets_cuts(l, h.push(':') + r);
    colon_outside_brackets_cuts(b, l.push(':') + (h.push(':') + r));
    let p = seq![b] + (seq![l] + (seq![h] + seq![r]));
    assert(p == seq![b, l, h, r]);
}

proof fn lemma_plain_is_unbracketed(s: Seq<char>)
    requires
        has_no_brackets(s),
    ensures
        unbracketed(s) == s,
{
    if s.len() > 0 {
        assert(s[0] != '[');
    }
}

/// Hosts without colons need no brackets, and without a bind address a forward
/// listens on 127.0.0.1 only.
pub proof fn forward_without_bind_is_local(lport: u16, rhost: Seq<char>, rport: u16)
    requires
        has_no_brackets(rhost),
        has_no_colon(rhost),
    ensures
        forward_of(
            decimal_text(lport as nat).push(':') + (rhost.push(':') + decimal_text(rport as nat)),
        ) == Some(ForwardModel { bind: "127.0.0.1"@, lport, rhost, rport }),
{
    let l = decimal_text(lport as nat);
    let r = decimal_text(rport as nat);
    plain_text_is_one_part(rhost);
    lemma_plain_is_unbracketed(rhost);
    lemma_port_text(lport);
    lemma_port_text(rport);
    colon_outside_brackets_cuts(rhost, r);
    colon_outside_brackets_cuts(l, rhost.push(':') + r);
    let p = seq![l] + (seq![rhost] + seq![r]);
    assert(p == seq![l, rhost, r]);
}

/// A proxy reads back from `[bind]:port`, and a port alone is a proxy on
/// 127.0.0.1.
pub proof fn proxy_reads_back(bind: Seq<char>, port: u16)
    requires
        has_no_brackets(bind),
    ensures
        proxy_of(in_brackets(bind).push(':') + decimal_text(port as nat)) == Some(
            ProxyModel { bind, port },
        ),
        proxy_of(decimal_text(port as nat)) == Some(ProxyModel { bind: "127.0.0.1"@, port }),
{
    let b = in_brackets(bind);
    let t = decimal_text(port as nat);
    bracketed_text_is_one_part(bind);
    lemma_port_text(port);
    colon_outside_brackets_cuts(b, t);
    assert(seq![b] + seq![t] == seq![b, t]);
}

/// A target to test reads back from `[rhost]:rport`.
pub proof fn host_port_reads_back(host: Seq<char>, port: u16)
    requires
        has_no_brackets(host),
    ensures
        host_port_of(in_brackets(host).push(':') + decimal_text(port as nat)) == Some((host, port)),
{
    let h = in_brackets(host);
    let t = decimal_text(port as nat);
    bracketed_text_is_one_part(host);
    lemma_port_text(port);
    colon_outside_brackets_cuts(h, t);
    assert(seq![h] + seq![t] == seq![h, t]);
}

/// Whether a text on the command line names a host: as it is where it holds
/// neither colons nor brackets, or in brackets.
pub open spec fn names_host(text: Seq<char>, host: Seq<char>) -> bool {
    &&& has_no_brackets(host)
    &&& (text == host && has_no_colon(host)) || text == in_brackets(host)
}

/// Whether a text on the command line names a port.
pub open spec fn names_port(text: Seq<char>, port: u16) -> bool {
    decimal_value(text) == Some(port as nat)
}

proof fn lemma_host_part(text: Seq<char>, host: Seq<char>)
    requires
        names_host(text, host),
    ensures
        colon_parts(text) == seq![text],
        ends_outside(text),
        unbracketed(text) == host,
{
    if text == host && has_no_colon(host) {
        plain_text_is_one_part(text);
        lemma_plain_is_unbracketed(text);
    } else {
        bracketed_text_is_one_part(host);
    }
}

proof fn lemma_port_part(text: Seq<char>, port: u16)
    requires
        names_port(text, port),
    ensures
        colon_parts(text) == seq![text],
        ends_outside(text),
        port_of(text) == Some(port),
{
    what_a_number_is(text);
    assert forall|i: int| 0 <= i < text.len() implies #[trigger] text[i] != ':' && text[i] != '['
        && text[i] != ']' by {
        assert(('0' <= text[i] <= '9') || (i == 0 && text[i] == '+'));
    }
    plain_text_is_one_part(text);
}

/// A forward reads back as it was written: `bind:lport:rhost:rport` is the
/// forward from just that address and port to just that host and port, each host
/// in brackets or, where it needs none, without; `lport:rhost:rport` is the same
/// forward on 127.0.0.1.
pub proof fn forward_reads_back(
    bind: Seq<char>,
    lport: Seq<char>,
    rhost: Seq<char>,
    rport: Seq<char>,
    f: ForwardModel,
)
    requires
        names_host(bind, f.bind),
        names_port(lport, f.lport),
        names_host(rhost, f.rhost),
        names_port(rport, f.rport),
    ensures
        forward_of(bind.push(':') + (lport.push(':') + (rhost.push(':') + rport))) == Some(f),
        forward_of(lport.push(':') + (rhost.push(':') + rport)) == Some(
            ForwardModel { bind: "127.0.0.1"@, ..f },
        ),
{
    lemma_host_part(bind, f.bind);
    lemma_port_part(lport, f.lport);
    lemma_host_part(rhost, f.rhost);
    lemma_port_part(rport, f.rport);
    let target = rhost.push(':') + rport;
    let local = lport.push(':') + target;
    colon_outside_brackets_cuts(rhost, rport);
    colon_outside_brackets_cuts(lport, target);
    colon_outside_brackets_cuts(bind, local);
    assert(colon_parts(local) == seq![lport, rhost, rport]);
    assert(colon_parts(bind.push(':') + local) == seq![bind, lport, rhost, rport]);
}

/// A proxy reads back as it was written: `bind:port`, with the address in
/// brackets or, where it needs none, without, and `port` alone for 127.0.0.1.
pub proof fn written_proxy_reads_back(bind: Seq<char>, port: Seq<char>, p: ProxyModel)
    requires
        names_host(bind, p.bind),
        names_port(port, p.port),
    ensures
        proxy_of(bind.push(':') + port) == Some(p),
        proxy_of(port) == Some(ProxyModel { bind: "127.0.0.1"@, ..p }),
{
    lemma_host_part(bind, p.bind);
    lemma_port_part(port, p.port);
    colon_outside_brackets_cuts(bind, port);
    assert(colon_parts(bind.push(':') + port) == seq![bind, port]);
}

/// A target reads back as it was written: `rhost:rport`, with the host in
/// brackets or, where it needs none, without.
pub proof fn written_target_reads_back(
    rhost: Seq<char>,
    rport: Seq<char>,
    host: Seq<char>,
    port: u16,
)
    requires
        names_host(rhost, host),
        names_port(rport, port),
    ensures
        host_port_of(rhost.push(':') + rport) == Some((host, port)),
{
    lemma_host_part(rhost, host);
    lemma_port_part(rport, port);
    colon_outside_brackets_cuts(rhost, rport);
    assert(colon_parts(rhost.push(':') + rport) == seq![rhost, rport]);
}

/// Whether no port can be read from a text.
pub open spec fn is_no_port(text: Seq<char>) -> bool {
    decimal_value(text) matches Some(n) ==> n > 65535
}

/// A text is a forward where it has three or four parts, of which the last but
/// two and the last are ports, and otherwise it is none.
pub proof fn what_a_forward_is(s: Seq<char>)
    ensures
        ({
            let p = colon_parts(s);
            let n = p.len() as int;
            match forward_of(s) {
                Some(f) => {
                    &&& n == 3 || n == 4
                    &&& names_port(p[n - 3], f.lport)
                    &&& f.rhost == unbracketed(p[n - 2])
                    &&& names_port(p[n - 1], f.rport)
                    &&& n == 3 ==> f.bind == "127.0.0.1"@
                    &&& n == 4 ==> f.bind == unbracketed(p[0])
                },
                None => n == 3 || n == 4 ==> is_no_port(p[n - 3]) || is_no_port(p[n - 1]),
            }
        }),
{
}

/// A text is a proxy where it has one or two parts, of which the last is a port,
/// and otherwise it is none.
pub proof fn what_a_proxy_is(s: Seq<char>)
    ensures
        ({
            let p = colon_parts(s);
            let n = p.len() as int;
            match proxy_of(s) {
                Some(x) => {
                    &&& n == 1 || n == 2
                    &&& names_port(p[n - 1], x.port)
                    &&& n == 1 ==> x.bind == "127.0.0.1"@
                    &&& n == 2 ==> x.bind == unbracketed(p[0])
                },
                None => n == 1 || n == 2 ==> is_no_port(p[n - 1]),
            }
        }),
{
}

/// A text is a target where it has two parts, of which the last is a port, and
/// otherwise it is none.
pub proof fn what_a_target_is(s: Seq<char>)
    ensures
        ({
            let p = colon_parts(s);
            match host_port_of(s) {
                Some((host, port)) => p.len() == 2 && host == unbracketed(p[0]) && names_port(
                    p[1],
                    port,
                ),
                None => p.len() == 2 ==> is_no_port(p[1]),
            }
        }),
{
}

/// What is read of a forward or a proxy is what it holds.
pub proof fn specs_hold_what_was_read(f: ForwardSpec, p: SocksSpec)
    ensures
        f.deep_view().bind == f.bind@,
        f.deep_view().lport == f.lport,
        f.deep_view().rhost == f.rhost@,
        f.deep_view().rport == f.rport,
        p.deep_view().bind == p.bind@,
        p.deep_view().port == p.port,
{
}

} // verus!
