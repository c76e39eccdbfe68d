//! The work of the port forwarding client: what it listens on, and what each
//! connection to a forward or to the proxy goes through.
use crate::targets::{ForwardModel, ForwardSpec, ProxyModel, SocksSpec};
use crate::text::{decimal_text, push_decimal, push_signed, signed_text};
use crate::tunnel_args::{TunnelArgs, TunnelModel};
use vstd::prelude::*;
use vstd::string::*;

verus! {

// ---- what to listen on ----

/// A listener to open.
pub struct Listener {
    /// The address to listen on.
    pub addr: String,
    /// The line to write once it is open.
    pub announcement: String,
    /// Where connections go; none for a proxy, whose clients say it themselves.
    pub target: Option<(String, u16)>,
}

pub struct ListenerModel {
    pub addr: Seq<char>,
    pub announcement: Seq<char>,
    pub target: Option<(Seq<char>, u16)>,
}

impl DeepView for Listener {
    type V = ListenerModel;

    open spec fn deep_view(&self) -> ListenerModel {
        ListenerModel {
            addr: self.addr@,
            announcement: self.announcement@,
            target: self.target.deep_view(),
        }
    }
}

/// What the client does.
pub enum TunnelPlan {
    /// Log in once for this target, and end.
    Test { host: String, port: i32 },
    /// Open the listeners as `setup_step` says, and serve them until
    /// interrupted.
    Listen(Vec<Listener>),
}

pub enum PlanModel {
    Test { host: Seq<char>, port: i32 },
    Listen(Seq<ListenerModel>),
}

impl DeepView for TunnelPlan {
    type V = PlanModel;

    open spec fn deep_view(&self) -> PlanModel {
        match *self {
            TunnelPlan::Test { host, port } => PlanModel::Test { host: host@, port },
            TunnelPlan::Listen(listeners) => PlanModel::Listen(listeners.deep_view()),
        }
    }
}

/// `host:port`.
pub open spec fn address_text(host: Seq<char>, port: nat) -> Seq<char> {
    host + ":"@ + decimal_text(port)
}

fn address_line(host: &str, port: u16) -> (t: String)
    ensures
        t@ == address_text(host@, port as nat),
{
    let mut out: String = host.to_owned().concat(":");
    push_decimal(&mut out, port as u128);
    out
}

/// The listener for a forward.
pub open spec fn forward_listener(f: ForwardModel, id: Seq<char>) -> ListenerModel {
    let addr = address_text(f.bind, f.lport as nat);
    ListenerModel {
        addr,
        announcement: "[-L] "@ + addr + " -> "@ + address_text(f.rhost, f.rport as nat) + " (id "@
            + id + ")"@,
        target: Some((f.rhost, f.rport)),
    }
}

/// The listener for a proxy.
pub open spec fn proxy_listener(p: ProxyModel, id: Seq<char>) -> ListenerModel {
    let addr = address_text(p.bind, p.port as nat);
    ListenerModel {
        addr,
        announcement: "[-D] SOCKS5 на "@ + addr + " (id "@ + id + ")"@,
        target: None,
    }
}

/// What arguments come to: the test if there is one, and otherwise a listener
/// for each forward and then for each proxy, in the order given.
pub open spec fn plan_of(a: TunnelModel) -> PlanModel {
    match a.test {
        Some((host, port)) => PlanModel::Test { host, port },
        None => PlanModel::Listen(
            a.forwards.map_values(|f: ForwardModel| forward_listener(f, a.id))
                + a.socks.map_values(|p: ProxyModel| proxy_listener(p, a.id)),
        ),
    }
}

fn listen_forward(f: &ForwardSpec, id: &str) -> (l: Listener)
    ensures
        l.deep_view() == forward_listener(f.deep_view(), id@),
{
    let addr: String = address_line(f.bind.as_str(), f.lport);
    let mut announcement: String = "[-L] ".to_owned();
    announcement.append(addr.as_str());
    announcement.append(" -> ");
    announcement.append(address_line(f.rhost.as_str(), f.rport).as_str());
    announcement.append(" (id ");
    announcement.append(id);
    announcement.append(")");
    Listener { addr, announcement, target: Some((f.rhost.clone(), f.rport)) }
}

fn listen_proxy(p: &SocksSpec, id: &str) -> (l: Listener)
    ensures
        l.deep_view() == proxy_listener(p.deep_view(), id@),
{
    let addr: String = address_line(p.bind.as_str(), p.port);
    let mut announcement: String = "[-D] SOCKS5 на ".to_owned();
    announcement.append(addr.as_str());
    announcement.append(" (id ");
    announcement.append(id);
    announcement.append(")");
    Listener { addr, announcement, target: None }
}

/// Plans the work of the client.
pub fn plan_tunnel(args: &TunnelArgs) -> (plan: TunnelPlan)
    ensures
        plan.deep_view() == plan_of(args.deep_view()),
{
    if let Some((host, port)) = &args.test {
        return TunnelPlan::Test { host: host.clone(), port: *port };
    }
    let ghost a = args.deep_view();
    let ghost as_forward = |f: ForwardModel| forward_listener(f, a.id);
    let ghost as_proxy = |p: ProxyModel| proxy_listener(p, a.id);
    let mut listeners: Vec<Listener> = Vec::new();
    let mut i: usize = 0;
    while i < args.forwards.len()
        invariant
            i <= args.forwards@.len(),
            a == args.deep_view(),
            as_forward == (|f: ForwardModel| forward_listener(f, a.id)),
            listeners.deep_view() == a.forwards.map_values(as_forward).take(i as int),
        decreases args.forwards@.len() - i,
    {
        let l: Listener = listen_forward(&args.forwards[i], args.id.as_str());
        let ghost before = listeners.deep_view();
        listeners.push(l);
        assert(listeners.deep_view() == before.push(l.deep_view()));
        assert(a.forwards.map_values(as_forward).take(i + 1) == before.push(
            as_forward(a.forwards[i as int]),
        ));
        i = i + 1;
    }
    assert(a.forwards.map_values(as_forward).take(i as int) == a.forwards.map_values(as_forward));
    let mut k: usize = 0;
    assert(listeners.deep_view() == a.forwards.map_values(as_forward) + a.socks.map_values(
        as_proxy,
    ).take(0));
    while k < args.socks.len()
        invariant
            k <= args.socks@.len(),
            a == args.deep_view(),
            as_proxy == (|p: ProxyModel| proxy_listener(p, a.id)),
            listeners.deep_view() == a.forwards.map_values(as_forward) + a.socks.map_values(
                as_proxy,
            ).take(k as int),
        decreases args.socks@.len() - k,
    {
        let l: Listener = listen_proxy(&args.socks[k], args.id.as_str());
        let ghost before = listeners.deep_view();
        listeners.push(l);
        assert(listeners.deep_view() == before.push(l.deep_view()));
        assert(a.socks.map_values(as_proxy).take(k + 1) == a.socks.map_values(as_proxy).take(
            k as int,
        ).push(as_proxy(a.socks[k as int])));
        k = k + 1;
    }
    assert(a.socks.map_values(as_proxy).take(k as int) == a.socks.map_values(as_proxy));
    TunnelPlan::Listen(listeners)
}

// ---- opening the listeners ----

/// The error of a listener that could not be opened.
pub open spec fn listen_error_text(addr: Seq<char>, error: Seq<char>) -> Seq<char> {
    "не удалось слушать "@ + addr + ": "@ + error
}

/// The error of a listener that could not be opened.
pub fn listen_error(addr: &str, error: &str) -> (t: String)
    ensures
        t@ == listen_error_text(addr@, error@),
{
    "не удалось слушать ".to_owned().concat(addr).concat(": ").concat(error)
}

/// What comes next while the listeners are being opened.
pub enum SetupNext {
    /// Open the listener with this number.
    Bind(usize),
    /// End the client with this error.
    Fail(String),
    /// Serve all listeners.
    ServeAll,
}

pub enum SetupModel {
    Bind(int),
    Fail(Seq<char>),
    ServeAll,
}

impl DeepView for SetupNext {
    type V = SetupModel;

    open spec fn deep_view(&self) -> SetupModel {
        match *self {
            SetupNext::Bind(i) => SetupModel::Bind(i as int),
            SetupNext::Fail(e) => SetupModel::Fail(e@),
            SetupNext::ServeAll => SetupModel::ServeAll,
        }
    }
}

/// What to do: write the line to standard error, if there is one, and then
/// `next`.
pub struct SetupStep {
    pub line: Option<String>,
    pub next: SetupNext,
}

/// The line once the first `bound` listeners are open: the last of them is
/// announced, unless the one behind it has just failed.
pub open spec fn setup_line(
    listeners: Seq<ListenerModel>,
    bound: int,
    failure: Option<Seq<char>>,
) -> Option<Seq<char>> {
    if bound > 0 && failure is None {
        Some(listeners[bound - 1].announcement)
    } else {
        None
    }
}

/// What comes once the first `bound` listeners are open, and the one behind them
/// has failed or not.
pub open spec fn setup_next(
    listeners: Seq<ListenerModel>,
    bound: int,
    failure: Option<Seq<char>>,
) -> SetupModel {
    match failure {
        Some(e) => SetupModel::Fail(listen_error_text(listeners[bound].addr, e)),
        None => if bound < listeners.len() {
            SetupModel::Bind(bound)
        } else {
            SetupModel::ServeAll
        },
    }
}

/// Takes in that the first `bound` listeners are open, and that the one behind
/// them has failed, if it has.
pub fn setup_step(listeners: &Vec<Listener>, bound: usize, failure: Option<String>) -> (step:
    SetupStep)
    requires
        bound <= listeners@.len(),
        failure is Some ==> bound < listeners@.len(),
    ensures
        step.line.deep_view() == setup_line(
            listeners.deep_view(),
            bound as int,
            failure.deep_view(),
        ),
        step.next.deep_view() == setup_next(
            listeners.deep_view(),
            bound as int,
            failure.deep_view(),
        ),
{
    match failure {
        Some(e) => SetupStep {
            line: None,
            next: SetupNext::Fail(listen_error(listeners[bound].addr.as_str(), e.as_str())),
        },
        None => {
            let line: Option<String> = if bound > 0 {
                Some(listeners[bound - 1].announcement.clone())
            } else {
                None
            };
            let next: SetupNext = if bound < listeners.len() {
                SetupNext::Bind(bound)
            } else {
                SetupNext::ServeAll
            };
            SetupStep { line, next }
        },
    }
}

// ---- one connection to a forward ----

/// What happened to a connection to a forward.
pub enum ForwardEvent {
    /// None could be taken in, for this reason.
    AcceptFailed(String),
    /// One was taken in.
    Accepted,
    /// The session to the target is open.
    SessionOpened,
    /// There is no session, for this reason.
    SessionFailed(String),
    /// No more bytes go through, because of an error or not.
    RelayEnded(Option<String>),
}

pub enum ForwardEventModel {
    AcceptFailed(Seq<char>),
    Accepted,
    SessionOpened,
    SessionFailed(Seq<char>),
    RelayEnded(Option<Seq<char>>),
}

impl DeepView for ForwardEvent {
    type V = ForwardEventModel;

    open spec fn deep_view(&self) -> ForwardEventModel {
        match *self {
            ForwardEvent::AcceptFailed(e) => ForwardEventModel::AcceptFailed(e@),
            ForwardEvent::Accepted => ForwardEventModel::Accepted,
            ForwardEvent::SessionOpened => ForwardEventModel::SessionOpened,
            ForwardEvent::SessionFailed(e) => ForwardEventModel::SessionFailed(e@),
            ForwardEvent::RelayEnded(e) => ForwardEventModel::RelayEnded(e.deep_view()),
        }
    }
}

/// What comes next for a connection to a forward.
#[derive(Clone, Copy, Debug, PartialEq, Eq, Structural)]
pub enum ForwardNext {
    /// Wait for another connection.
    Accept,
    /// Open a session, and wait for other connections meanwhile.
    OpenSession,
    /// Let bytes through between connection and session.
    Relay,
    /// Close the connection.
    Close,
}

/// What to do: write the lines to standard error, and then `next`.
pub struct ForwardStep {
    pub lines: Vec<String>,
    pub next: ForwardNext,
}

/// The lines on an event of a connection from `peer` to the forward that goes
/// to `rhost:rport`. Errors in reaching the target are always written, the rest
/// only where `verbose` says so.
pub open spec fn forward_lines(
    rhost: Seq<char>,
    rport: u16,
    peer: Seq<char>,
    verbose: bool,
    event: ForwardEventModel,
) -> Seq<Seq<char>> {
    let label = "[-L "@ + address_text(rhost, rport as nat) + "] "@;
    let closed = label + peer + " закрыто"@;
    match event {
        ForwardEventModel::AcceptFailed(e) => seq![label + "accept error: "@ + e],
        ForwardEventModel::Accepted => if verbose {
            seq![label + "новое соединение от "@ + peer]
        } else {
            seq![]
        },
        ForwardEventModel::SessionOpened => seq![],
        ForwardEventModel::SessionFailed(e) => {
            let failed = label + peer + ": не удалось подключиться: "@ + e;
            if verbose {
                seq![failed, closed]
            } else {
                seq![failed]
            }
        },
        ForwardEventModel::RelayEnded(error) => if !verbose {
            seq![]
        } else {
            match error {
                Some(e) => seq![label + peer + ": ошибка проброса: "@ + e, closed],
                None => seq![closed],
            }
        },
    }
}

/// What comes after an event of a connection to a forward.
pub open spec fn forward_next(event: ForwardEventModel) -> ForwardNext {
    match event {
        ForwardEventModel::AcceptFailed(_) => ForwardNext::Accept,
        ForwardEventModel::Accepted => ForwardNext::OpenSession,
        ForwardEventModel::SessionOpened => ForwardNext::Relay,
        ForwardEventModel::SessionFailed(_) => ForwardNext::Close,
        ForwardEventModel::RelayEnded(_) => ForwardNext::Close,
    }
}

/// Takes in an event of a connection from `peer` to the forward that goes to
/// `rhost:rport`.
pub fn forward_step(rhost: &str, rport: u16, peer: &str, verbose: bool, event: ForwardEvent) -> (step:
    ForwardStep)
    ensures
        step.lines.deep_view() == forward_lines(rhost@, rport, peer@, verbose, event.deep_view()),
        step.next == forward_next(event.deep_view()),
{
    let mut label: String = "[-L ".to_owned();
    label.append(address_line(rhost, rport).as_str());
    label.append("] ");
    let mut lines: Vec<String> = Vec::new();
    let next: ForwardNext = match event {
        ForwardEvent::AcceptFailed(e) => {
            lines.push(label.concat("accept error: ").concat(e.as_str()));
            ForwardNext::Accept
        },
        ForwardEvent::Accepted => {
            if verbose {
                lines.push(label.concat("новое соединение от ").concat(peer));
            }
            ForwardNext::OpenSession
        },
        ForwardEvent::SessionOpened => ForwardNext::Relay,
        ForwardEvent::SessionFailed(e) => {
            lines.push(
                label.clone().concat(peer).concat(": не удалось подключиться: ").concat(e.as_str()),
            );
            if verbose {
                lines.push(label.concat(peer).concat(" закрыто"));
            }
            ForwardNext::Close
        },
        ForwardEvent::RelayEnded(error) => {
            if verbose {
                if let Some(e) = error {
                    lines.push(
                        label.clone().concat(peer).concat(": ошибка проброса: ").concat(e.as_str()),
                    );
                }
                lines.push(label.concat(peer).concat(" закрыто"));
            }
            ForwardNext::Close
        },
    };
    assert(lines.deep_view() == forward_lines(rhost@, rport, peer@, verbose, event.deep_view()));
    ForwardStep { lines, next }
}

// ---- one client of the proxy ----

/// What happened to a client of the proxy.
pub enum ProxyEvent {
    /// None could be taken in, for this reason.
    AcceptFailed(String),
    /// One was taken in.
    Accepted,
    /// It asked for this target.
    Connecting { host: String, port: i32 },
    /// No more bytes go through to this target, because of an error or not.
    RelayEnded { host: String, port: i32, failure: Option<String> },
    /// The one from this address failed with this error before bytes went
    /// through.
    ClientFailed { peer: String, error: String },
}

pub enum ProxyEventModel {
    AcceptFailed(Seq<char>),
    Accepted,
    Connecting { host: Seq<char>, port: int },
    RelayEnded { host: Seq<char>, port: int, failure: Option<Seq<char>> },
    ClientFailed { peer: Seq<char>, error: Seq<char> },
}

impl DeepView for ProxyEvent {
    type V = ProxyEventModel;

    open spec fn deep_view(&self) -> ProxyEventModel {
        match *self {
            ProxyEvent::AcceptFailed(e) => ProxyEventModel::AcceptFailed(e@),
            ProxyEvent::Accepted => ProxyEventModel::Accepted,
            ProxyEvent::Connecting { host, port } => ProxyEventModel::Connecting {
                host: host@,
                port: port as int,
            },
            ProxyEvent::RelayEnded { host, port, failure } => ProxyEventModel::RelayEnded {
                host: host@,
                port: port as int,
                failure: failure.deep_view(),
            },
            ProxyEvent::ClientFailed { peer, error } => ProxyEventModel::ClientFailed {
                peer: peer@,
                error: error@,
            },
        }
    }
}

/// What comes next for a client of the proxy.
#[derive(Clone, Copy, Debug, PartialEq, Eq, Structural)]
pub enum ProxyNext {
    /// Wait for another client.
    Accept,
    /// Talk to the client, and wait for other clients meanwhile.
    Converse,
    /// Open a session to the target.
    OpenSession,
    /// Close the connection.
    Close,
}

/// What to do: write the line to standard error, if there is one, and then
/// `next`.
pub struct ProxyStep {
    pub line: Option<String>,
    pub next: ProxyNext,
}

/// The line on an event of the proxy. Targets, and errors of bytes that go
/// through, are only written where `verbose` says so.
pub open spec fn proxy_line(event: ProxyEventModel, verbose: bool) -> Option<Seq<char>> {
    match event {
        ProxyEventModel::AcceptFailed(e) => Some("[-D] accept error: "@ + e),
        ProxyEventModel::Accepted => None,
        ProxyEventModel::Connecting { host, port } => if verbose {
            Some("[-D] CONNECT "@ + host + ":"@ + signed_text(port))
        } else {
            None
        },
        ProxyEventModel::RelayEnded { host, port, failure } => match failure {
            Some(e) => if verbose {
                Some("[-D] "@ + host + ":"@ + signed_text(port) + ": ошибка проброса: "@ + e)
            } else {
                None
            },
            None => None,
        },
        ProxyEventModel::ClientFailed { peer, error } => Some("[-D] "@ + peer + ": "@ + error),
    }
}

/// What comes after an event of the proxy.
pub open spec fn proxy_next(event: ProxyEventModel) -> ProxyNext {
    match event {
        ProxyEventModel::AcceptFailed(_) => ProxyNext::Accept,
        ProxyEventModel::Accepted => ProxyNext::Converse,
        ProxyEventModel::Connecting { .. } => ProxyNext::OpenSession,
        ProxyEventModel::RelayEnded { .. } => ProxyNext::Close,
        ProxyEventModel::ClientFailed { .. } => ProxyNext::Close,
    }
}

/// Takes in an event of the proxy.
pub fn proxy_step(event: ProxyEvent, verbose: bool) -> (step: ProxyStep)
    ensures
        step.line.deep_view() == proxy_line(event.deep_view(), verbose),
        step.next == proxy_next(event.deep_view()),
{
    match event {
        ProxyEvent::AcceptFailed(e) => ProxyStep {
            line: Some("[-D] accept error: ".to_owned().concat(e.as_str())),
            next: ProxyNext::Accept,
        },
        ProxyEvent::Accepted => ProxyStep { line: None, next: ProxyNext::Converse },
        ProxyEvent::Connecting { host, port } => {
            let line: Option<String> = if verbose {
                let mut line: String = "[-D] CONNECT ".to_owned().concat(host.as_str()).concat(":");
                push_signed(&mut line, port as i64);
                Some(line)
            } else {
                None
            };
            ProxyStep { line, next: ProxyNext::OpenSession }
        },
        ProxyEvent::RelayEnded { host, port, failure } => {
            let line: Option<String> = match failure {
                Some(e) => if verbose {
                    let mut line: String = "[-D] ".to_owned().concat(host.as_str()).concat(":");
                    push_signed(&mut line, port as i64);
                    line.append(": ошибка проброса: ");
                    line.append(e.as_str());
                    Some(line)
                } else {
                    None
                },
                None => None,
            };
            ProxyStep { line, next: ProxyNext::Close }
        },
        ProxyEvent::ClientFailed { peer, error } => ProxyStep {
            line: Some(
                "[-D] ".to_owned().concat(peer.as_str()).concat(": ").concat(error.as_str()),
            ),
            next: ProxyNext::Close,
        },
    }
}

// ---- laws ----

/// Without a test there is exactly one listener for each forward and each
/// proxy, forwards first, each in the order given; with one there is none.
pub proof fn every_spec_has_its_listener(a: TunnelModel)
    ensures
        match plan_of(a) {
            PlanModel::Test { host, port } => a.test == Some((host, port)),
            PlanModel::Listen(l) => {
                &&& a.test is None
                &&& l.len() == a.forwards.len() + a.socks.len()
                &&& forall|i: int|
                    0 <= i < a.forwards.len() ==> #[trigger] l[i] == forward_listener(
                        a.forwards[i],
                        a.id,
                    )
                &&& forall|i: int|
                    a.forwards.len() <= i < l.len() ==> #[trigger] l[i] == proxy_listener(
                        a.socks[i - a.forwards.len()],
                        a.id,
                    )
            },
        },
{
}

/// How many listeners are open after these results, one for each that was
/// tried: none where it was opened, or else the error.
pub open spec fn bound_after(results: Seq<Option<Seq<char>>>) -> int {
    if results.len() > 0 && results.last() is Some {
        results.len() - 1
    } else {
        results.len() as int
    }
}

/// The error of the last result.
pub open spec fn failure_after(results: Seq<Option<Seq<char>>>) -> Option<Seq<char>> {
    if results.len() > 0 {
        results.last()
    } else {
        None
    }
}

/// What the steps say comes after these results.
pub open spec fn setup_after(
    listeners: Seq<ListenerModel>,
    results: Seq<Option<Seq<char>>>,
) -> SetupModel {
    setup_next(listeners, bound_after(results), failure_after(results))
}

/// The lines that the steps up to these results write.
pub open spec fn setup_said(
    listeners: Seq<ListenerModel>,
    results: Seq<Option<Seq<char>>>,
) -> Seq<Seq<char>>
    decreases results.len(),
{
    let before = if results.len() == 0 {
        seq![]
    } else {
        setup_said(listeners, results.drop_last())
    };
    match setup_line(listeners, bound_after(results), failure_after(results)) {
        Some(line) => before.push(line),
        None => before,
    }
}

/// Whether every result is one of a listener that a step said to open.
pub open spec fn results_of_steps(
    listeners: Seq<ListenerModel>,
    results: Seq<Option<Seq<char>>>,
) -> bool {
    forall|k: int|
        0 <= k < results.len() ==> setup_after(listeners, #[trigger] results.take(k)) is Bind
}

/// The listeners are opened one by one in order, each is announced once it is
/// open, and none is served before all are open: serving follows exactly where
/// every one was opened. An error in opening one ends the client with the text
/// for that listener, whether or not others were opened before it.
pub proof fn all_are_open_before_any_is_served(
    listeners: Seq<ListenerModel>,
    results: Seq<Option<Seq<char>>>,
)
    requires
        results_of_steps(listeners, results),
    ensures
        results.len() <= listeners.len(),
        forall|k: int|
            0 <= k < results.len() ==> setup_after(listeners, #[trigger] results.take(k))
                == SetupModel::Bind(k),
        setup_after(listeners, results) is ServeAll <==> results.len() == listeners.len() && (
        forall|k: int| 0 <= k < results.len() ==> #[trigger] results[k] is None),
        (forall|k: int| 0 <= k < results.len() ==> #[trigger] results[k] is None)
            && results.len() < listeners.len() ==> setup_after(listeners, results)
            == SetupModel::Bind(results.len() as int),
        forall|k: int|
            0 <= k < results.len() && #[trigger] results[k] is Some ==> k == results.len() - 1
                && setup_after(listeners, results) == SetupModel::Fail(
                listen_error_text(listeners[k].addr, results[k]->0),
            ),
        setup_said(listeners, results) == Seq::new(
            bound_after(results) as nat,
            |i: int| listeners[i].announcement,
        ),
    decreases results.len(),
{
    let said = setup_said(listeners, results);
    if results.len() > 0 {
        let n = results.len() as int;
        let before = results.drop_last();
        assert(before == results.take(n - 1));
        assert forall|k: int| 0 <= k < before.len() implies setup_after(
            listeners,
            #[trigger] before.take(k),
        ) is Bind by {
            assert(before.take(k) == results.take(k));
        }
        all_are_open_before_any_is_served(listeners, before);
        assert(setup_after(listeners, before) is Bind);
        assert forall|k: int| 0 <= k < n implies setup_after(listeners, #[trigger] results.take(k))
            == SetupModel::Bind(k) by {
            if k < n - 1 {
                assert(before.take(k) == results.take(k));
            }
        }
        assert forall|k: int| 0 <= k < n - 1 implies #[trigger] results[k] is None by {
            assert(before[k] == results[k]);
        }
        assert(bound_after(before) == n - 1);
        if results.last() is None {
            assert(said == setup_said(listeners, before).push(listeners[n - 1].announcement));
        }
    }
    assert(said == Seq::new(bound_after(results) as nat, |i: int| listeners[i].announcement));
}

/// A listener goes on accepting: an error in taking a connection in leads back
/// to it, and one that was taken in is served beside it.
pub proof fn listeners_go_on_accepting(error: Seq<char>)
    ensures
        forward_next(ForwardEventModel::AcceptFailed(error)) == ForwardNext::Accept,
        forward_next(ForwardEventModel::Accepted) == ForwardNext::OpenSession,
        proxy_next(ProxyEventModel::AcceptFailed(error)) == ProxyNext::Accept,
        proxy_next(ProxyEventModel::Accepted) == ProxyNext::Converse,
{
}

/// A forward is listened for on its own address and local port, and its
/// connections go to its remote host and port; a proxy is listened for on its
/// address and port, and has no target of its own. Each is announced with what it
/// does and for whom.
pub proof fn listeners_do_what_was_asked(a: TunnelModel, i: int)
    requires
        a.test is None,
        0 <= i < a.forwards.len() + a.socks.len(),
    ensures
        plan_of(a) matches PlanModel::Listen(l) && l.len() == a.forwards.len() + a.socks.len() && (
        if i < a.forwards.len() {
            let f = a.forwards[i];
            &&& l[i].addr == f.bind + ":"@ + decimal_text(f.lport as nat)
            &&& l[i].target == Some((f.rhost, f.rport))
            &&& l[i].announcement == "[-L] "@ + l[i].addr + " -> "@ + (f.rhost + ":"@
                + decimal_text(f.rport as nat)) + " (id "@ + a.id + ")"@
        } else {
            let p = a.socks[i - a.forwards.len()];
            &&& l[i].addr == p.bind + ":"@ + decimal_text(p.port as nat)
            &&& l[i].target is None
            &&& l[i].announcement == "[-D] SOCKS5 на "@ + l[i].addr + " (id "@ + a.id + ")"@
        }),
{
}

/// With a target to test there is nothing to listen on, and that target is
/// tested.
pub proof fn test_is_for_the_target_that_was_given(a: TunnelModel)
    requires
        a.test is Some,
    ensures
        plan_of(a) matches PlanModel::Test { host, port } && a.test == Some((host, port)),
{
}

/// The error of a listener names its address and then the reason.
pub proof fn listen_error_names_the_address(addr: Seq<char>, error: Seq<char>)
    ensures
        listen_error_text(addr, error) == "не удалось слушать "@ + addr + ": "@ + error,
{
}

/// A connection to a forward goes on to a session, bytes go through only once
/// that is open, and whatever ends either closes the connection.
pub proof fn course_of_a_forwarded_connection(error: Seq<char>, ended: Option<Seq<char>>)
    ensures
        forward_next(ForwardEventModel::Accepted) == ForwardNext::OpenSession,
        forward_next(ForwardEventModel::SessionOpened) == ForwardNext::Relay,
        forward_next(ForwardEventModel::SessionFailed(error)) == ForwardNext::Close,
        forward_next(ForwardEventModel::RelayEnded(ended)) == ForwardNext::Close,
{
}

/// What is said of a connection to a forward, each line with the target. That
/// none could be taken in, or that there is no session, is always said; `verbose`
/// adds who connected, an error that ended it and that it is closed, and never
/// changes what is said without it.
pub proof fn what_is_said_of_a_forwarded_connection(
    rhost: Seq<char>,
    rport: u16,
    peer: Seq<char>,
    error: Seq<char>,
    verbose: bool,
)
    ensures
        ({
            let say = |v: bool, e: ForwardEventModel| forward_lines(rhost, rport, peer, v, e);
            let label = "[-L "@ + (rhost + ":"@ + decimal_text(rport as nat)) + "] "@;
            let closed = label + peer + " закрыто"@;
            &&& say(verbose, ForwardEventModel::AcceptFailed(error)) == seq![
                label + "accept error: "@ + error,
            ]
            &&& say(verbose, ForwardEventModel::SessionOpened).len() == 0
            &&& say(false, ForwardEventModel::Accepted).len() == 0
            &&& say(true, ForwardEventModel::Accepted) == seq![
                label + "новое соединение от "@ + peer,
            ]
            &&& say(false, ForwardEventModel::SessionFailed(error)) == seq![
                label + peer + ": не удалось подключиться: "@ + error,
            ]
            &&& say(true, ForwardEventModel::SessionFailed(error)) == say(
                false,
                ForwardEventModel::SessionFailed(error),
            ).push(closed)
            &&& say(false, ForwardEventModel::RelayEnded(Some(error))).len() == 0
            &&& say(false, ForwardEventModel::RelayEnded(None)).len() == 0
            &&& say(true, ForwardEventModel::RelayEnded(None)) == seq![closed]
            &&& say(true, ForwardEventModel::RelayEnded(Some(error))) == seq![
                label + peer + ": ошибка проброса: "@ + error,
                closed,
            ]
        }),
{
    let label = "[-L "@ + (rhost + ":"@ + decimal_text(rport as nat)) + "] "@;
    let closed = label + peer + " закрыто"@;
    let failed = label + peer + ": не удалось подключиться: "@ + error;
    assert(seq![failed].push(closed) == seq![failed, closed]);
}

/// A client of the proxy that asks for a target gets a session opened to it, and
/// whatever ends it closes the connection.
pub proof fn course_of_a_proxied_connection(
    host: Seq<char>,
    port: int,
    failure: Option<Seq<char>>,
    peer: Seq<char>,
    error: Seq<char>,
)
    ensures
        proxy_next((ProxyEventModel::Connecting { host, port })) == ProxyNext::OpenSession,
        proxy_next((ProxyEventModel::RelayEnded { host, port, failure })) == ProxyNext::Close,
        proxy_next((ProxyEventModel::ClientFailed { peer, error })) == ProxyNext::Close,
{
}

/// What is said of the proxy. That no client could be taken in, or that one
/// failed, is always said; the target of each, and an error while bytes went
/// through, only where `verbose` says so.
pub proof fn what_is_said_of_the_proxy(
    host: Seq<char>,
    port: int,
    peer: Seq<char>,
    error: Seq<char>,
    verbose: bool,
)
    ensures
        ({
            let connecting = ProxyEventModel::Connecting { host, port };
            let broken = ProxyEventModel::RelayEnded { host, port, failure: Some(error) };
            let ended = ProxyEventModel::RelayEnded { host, port, failure: None };
            &&& proxy_line(ProxyEventModel::AcceptFailed(error), verbose) == Some(
                "[-D] accept error: "@ + error,
            )
            &&& proxy_line((ProxyEventModel::ClientFailed { peer, error }), verbose) == Some(
                "[-D] "@ + peer + ": "@ + error,
            )
            &&& proxy_line(ProxyEventModel::Accepted, verbose) is None
            &&& proxy_line(ended, verbose) is None
            &&& proxy_line(connecting, false) is None
            &&& proxy_line(broken, false) is None
            &&& proxy_line(connecting, true) == Some(
                "[-D] CONNECT "@ + host + ":"@ + signed_text(port),
            )
            &&& proxy_line(broken, true) == Some(
                "[-D] "@ + host + ":"@ + signed_text(port) + ": ошибка проброса: "@ + error,
            )
        }),
{
}

/// What is read of a plan, its listeners and a step of opening them is what they
/// hold.
pub proof fn plans_hold_what_was_read(
    l: Listener,
    host: String,
    port: i32,
    listeners: Vec<Listener>,
    i: usize,
    error: String,
)
    ensures
        l.deep_view().addr == l.addr@,
        l.deep_view().announcement == l.announcement@,
        l.deep_view().target == l.target.deep_view(),
        (TunnelPlan::Test { host, port }).deep_view() == (PlanModel::Test { host: host@, port }),
        TunnelPlan::Listen(listeners).deep_view() == PlanModel::Listen(listeners.deep_view()),
        SetupNext::Bind(i).deep_view() == SetupModel::Bind(i as int),
        SetupNext::Fail(error).deep_view() == SetupModel::Fail(error@),
        SetupNext::ServeAll.deep_view() is ServeAll,
{
}

/// What is read of an event of a connection is what it holds.
pub proof fn events_hold_what_was_read(
    error: String,
    ended: Option<String>,
    host: String,
    port: i32,
    peer: String,
)
    ensures
        ForwardEvent::AcceptFailed(error).deep_view() == ForwardEventModel::AcceptFailed(error@),
        ForwardEvent::Accepted.deep_view() is Accepted,
        ForwardEvent::SessionOpened.deep_view() is SessionOpened,
        ForwardEvent::SessionFailed(error).deep_view() == ForwardEventModel::SessionFailed(error@),
        ForwardEvent::RelayEnded(ended).deep_view() == ForwardEventModel::RelayEnded(
            ended.deep_view(),
        ),
        ProxyEvent::AcceptFailed(error).deep_view() == ProxyEventModel::AcceptFailed(error@),
        ProxyEvent::Accepted.deep_view() is Accepted,
        (ProxyEvent::Connecting { host, port }).deep_view() == (ProxyEventModel::Connecting {
            host: host@,
            port: port as int,
        }),
        (ProxyEvent::RelayEnded { host, port, failure: ended }).deep_view() == (
        ProxyEventModel::RelayEnded { host: host@, port: port as int, failure: ended.deep_view() }),
        (ProxyEvent::ClientFailed { peer, error }).deep_view() == (ProxyEventModel::ClientFailed {
            peer: peer@,
            error: error@,
        }),
{
}

} // verus!
