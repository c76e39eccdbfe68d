use headless_client::login::{LoginWatch, MsgboxAnswer, SessionFailure};
use headless_client::targets::{parse_forward_spec, parse_host_port, parse_socks_spec, ForwardSpec, SocksSpec};
use headless_client::tunnel::{forward_step, listen_error, plan_tunnel, proxy_step, setup_step, ForwardEvent, ForwardNext, Listener, ProxyEvent, ProxyNext, SetupNext, TunnelPlan};
use headless_client::tunnel_args::{parse_tunnel_args, password_warning, TunnelArgs, TunnelCommand, TunnelUsage};

fn forward(s: &str) -> Option<(String, u16, String, u16)> {
    parse_forward_spec(s).map(|f| (f.bind, f.lport, f.rhost, f.rport))
}

fn proxy(s: &str) -> Option<(String, u16)> {
    parse_socks_spec(s).map(|p| (p.bind, p.port))
}

fn command(args: &[&str], environment: Option<&str>) -> TunnelCommand {
    let args: Vec<String> = args.iter().map(|a| a.to_string()).collect();
    parse_tunnel_args(&args, environment.map(|e| e.to_string()))
}

fn accepted(args: &[&str], environment: Option<&str>) -> TunnelArgs {
    match command(args, environment).outcome {
        Ok(a) => a,
        Err(_) => panic!("usage for {:?}", args),
    }
}

fn refused(args: &[&str]) -> (bool, TunnelUsage) {
    let c = command(args, None);
    match c.outcome {
        Ok(_) => panic!("accepted {:?}", args),
        Err(u) => (c.password_missing, u),
    }
}

#[test]
fn forwards_are_read() {
    assert_eq!(
        forward("2222:localhost:22"),
        Some(("127.0.0.1".to_string(), 2222, "localhost".to_string(), 22))
    );
    assert_eq!(
        forward("0.0.0.0:2222:localhost:22"),
        Some(("0.0.0.0".to_string(), 2222, "localhost".to_string(), 22))
    );
    assert_eq!(
        forward("[::1]:2222:[fe80::2]:22"),
        Some(("::1".to_string(), 2222, "fe80::2".to_string(), 22))
    );
    assert_eq!(
        forward("8080::80"),
        Some(("127.0.0.1".to_string(), 8080, "".to_string(), 80))
    );
}

#[test]
fn other_texts_are_no_forwards() {
    for t in ["", "2222", "2222:localhost", "a:b:c:d:e", "x:localhost:22", "22:localhost:65536", "::1:22:h:22"] {
        assert_eq!(forward(t), None);
    }
}

#[test]
fn proxies_are_read() {
    assert_eq!(proxy("1080"), Some(("127.0.0.1".to_string(), 1080)));
    assert_eq!(proxy("[::]:1080"), Some(("::".to_string(), 1080)));
    assert_eq!(proxy("0.0.0.0:1080"), Some(("0.0.0.0".to_string(), 1080)));
    assert_eq!(proxy(""), None);
    assert_eq!(proxy("a:b"), None);
    assert_eq!(proxy("a:1:2"), None);
}

#[test]
fn targets_are_read() {
    assert_eq!(parse_host_port("localhost:3389"), Some(("localhost".to_string(), 3389)));
    assert_eq!(parse_host_port("[::1]:22"), Some(("::1".to_string(), 22)));
    assert_eq!(parse_host_port("localhost"), None);
    assert_eq!(parse_host_port("localhost:"), None);
    assert_eq!(parse_host_port("::1:22"), None);
}

#[test]
fn command_line_with_forwards_and_proxies() {
    let a = accepted(
        &["--id", "123456789", "--password", "pw", "-L", "2222:localhost:22", "-D", "1080", "-L", "1:b:2", "-v", "--allow-insecure"],
        Some("other"),
    );
    assert_eq!(a.id, "123456789");
    assert_eq!(a.password, "pw");
    assert_eq!(a.forwards.len(), 2);
    assert_eq!(a.forwards[0].rhost, "localhost");
    assert_eq!(a.forwards[1].rhost, "b");
    assert_eq!(a.socks.len(), 1);
    assert_eq!(a.socks[0].port, 1080);
    assert_eq!(a.test, None);
    assert!(a.allow_insecure);
    assert!(a.verbose);
}

#[test]
fn command_line_with_a_test() {
    let a = accepted(&["--id", "123456789", "--test", "localhost:3389", "--verbose"], None);
    assert_eq!(a.test, Some(("localhost".to_string(), 3389)));
    assert!(a.forwards.is_empty() && a.socks.is_empty());
    assert!(!a.allow_insecure);
    assert!(a.verbose);
}

#[test]
fn password_of_the_environment() {
    let line = ["--id", "1", "-D", "1080"];
    assert_eq!(accepted(&line, Some("env")).password, "env");
    assert!(!command(&line, Some("env")).password_missing);
    assert_eq!(accepted(&line, None).password, "");
    assert!(command(&line, None).password_missing);
    assert!(command(&line, Some("")).password_missing);
    let empty = ["--id", "1", "--password", "", "-D", "1080"];
    assert_eq!(accepted(&empty, Some("env")).password, "");
    assert!(command(&empty, Some("env")).password_missing);
    let last = ["--id", "1", "-D", "1080", "--password", "a", "--password"];
    assert_eq!(accepted(&last, Some("env")).password, "env");
    assert_eq!(
        password_warning(),
        "предупреждение: пароль не задан (--password / HEADLESS_TUNNEL_PASSWORD пусты)"
    );
}

#[test]
fn an_option_takes_whatever_is_behind_it() {
    let a = accepted(&["--id", "-v", "--password", "--id", "-D", "1"], None);
    assert_eq!(a.id, "-v");
    assert_eq!(a.password, "--id");
    assert!(!a.verbose);
}

#[test]
fn usage_with_a_reason() {
    let (_, u) = refused(&["--id", "1", "-L", "x"]);
    assert!(matches!(u, TunnelUsage::BadForward));
    assert_eq!(
        u.message(),
        Some("некорректный -L (ожидается [bind:]lport:rhost:rport)\n".to_string())
    );
    assert!(matches!(refused(&["-L"]).1, TunnelUsage::BadForward));
    let (_, u) = refused(&["-D", "x"]);
    assert!(matches!(u, TunnelUsage::BadSocks));
    assert_eq!(u.message(), Some("некорректный -D (ожидается [bind:]port)\n".to_string()));
    let (_, u) = refused(&["--test", "x"]);
    assert!(matches!(u, TunnelUsage::BadTest));
    assert_eq!(u.message(), Some("некорректный --test (ожидается rhost:rport)\n".to_string()));
    let (missing, u) = refused(&["--id", "1", "--what"]);
    assert!(matches!(&u, TunnelUsage::Unknown(t) if t == "--what"));
    assert_eq!(u.message(), Some("неизвестный аргумент: --what\n".to_string()));
    assert!(!missing);
}

#[test]
fn usage_without_a_reason() {
    let (_, u) = refused(&["-h"]);
    assert!(matches!(u, TunnelUsage::Help));
    assert_eq!(u.message(), None);
    assert!(matches!(refused(&["--help", "--what"]).1, TunnelUsage::Help));
    let (missing, u) = refused(&["-D", "1080"]);
    assert!(matches!(u, TunnelUsage::NoId));
    assert_eq!(u.message(), None);
    assert!(!missing);
    assert!(matches!(refused(&["--id", "1", "-D", "1", "--id"]).1, TunnelUsage::NoId));
    let (missing, u) = refused(&["--id", "1"]);
    assert!(matches!(u, TunnelUsage::NothingToDo));
    assert_eq!(u.message(), None);
    assert!(missing);
}

#[test]
fn test_excludes_listeners() {
    let (missing, u) = refused(&["--id", "1", "--test", "h:1", "-D", "1080"]);
    assert!(matches!(u, TunnelUsage::TestWithListeners));
    assert!(missing);
    assert_eq!(
        u.message(),
        Some("--test нельзя сочетать с -L/-D — это разовая проверка, не запуск туннеля\n".to_string())
    );
    let (missing, u) = refused(&["--id", "1", "--password", "p", "-L", "1:h:1", "--test", "h:1"]);
    assert!(matches!(u, TunnelUsage::TestWithListeners));
    assert!(!missing);
}

fn args(test: Option<(String, i32)>) -> TunnelArgs {
    TunnelArgs {
        id: "77".to_string(),
        password: String::new(),
        forwards: vec![
            ForwardSpec { bind: "127.0.0.1".to_string(), lport: 2222, rhost: "localhost".to_string(), rport: 22 },
            ForwardSpec { bind: "::1".to_string(), lport: 1, rhost: "b".to_string(), rport: 2 },
        ],
        socks: vec![SocksSpec { bind: "0.0.0.0".to_string(), port: 1080 }],
        test,
        allow_insecure: false,
        verbose: false,
    }
}

#[test]
fn plan_listens_in_order() {
    let listeners = match plan_tunnel(&args(None)) {
        TunnelPlan::Listen(l) => l,
        TunnelPlan::Test { .. } => panic!("no test was asked for"),
    };
    assert_eq!(listeners.len(), 3);
    assert_eq!(listeners[0].addr, "127.0.0.1:2222");
    assert_eq!(
        listeners[0].announcement,
        "[-L] 127.0.0.1:2222 -> localhost:22 (id 77)"
    );
    assert_eq!(listeners[0].target, Some(("localhost".to_string(), 22)));
    assert_eq!(listeners[1].addr, "::1:1");
    assert_eq!(listeners[2].addr, "0.0.0.0:1080");
    assert_eq!(listeners[2].announcement, "[-D] SOCKS5 на 0.0.0.0:1080 (id 77)");
    assert_eq!(listeners[2].target, None);
    assert_eq!(
        listen_error("127.0.0.1:1", "in use"),
        "не удалось слушать 127.0.0.1:1: in use"
    );
}

#[test]
fn plan_tests_only() {
    match plan_tunnel(&args(Some(("h".to_string(), 3389)))) {
        TunnelPlan::Test { host, port } => {
            assert_eq!(host, "h");
            assert_eq!(port, 3389);
        }
        TunnelPlan::Listen(_) => panic!("a test was asked for"),
    }
}

fn step(verbose: bool, event: ForwardEvent) -> (Vec<String>, ForwardNext) {
    let s = forward_step("localhost", 22, "10.0.0.1:5", verbose, event);
    (s.lines, s.next)
}

#[test]
fn forward_connections() {
    let none: Vec<String> = Vec::new();
    assert_eq!(
        step(false, ForwardEvent::AcceptFailed("e".to_string())),
        (vec!["[-L localhost:22] accept error: e".to_string()], ForwardNext::Accept)
    );
    assert_eq!(step(false, ForwardEvent::Accepted), (none.clone(), ForwardNext::OpenSession));
    assert_eq!(
        step(true, ForwardEvent::Accepted).0,
        vec!["[-L localhost:22] новое соединение от 10.0.0.1:5"]
    );
    assert_eq!(step(true, ForwardEvent::SessionOpened), (none.clone(), ForwardNext::Relay));
    assert_eq!(
        step(false, ForwardEvent::SessionFailed("e".to_string())),
        (
            vec!["[-L localhost:22] 10.0.0.1:5: не удалось подключиться: e".to_string()],
            ForwardNext::Close
        )
    );
    assert_eq!(
        step(true, ForwardEvent::SessionFailed("e".to_string())).0,
        vec![
            "[-L localhost:22] 10.0.0.1:5: не удалось подключиться: e",
            "[-L localhost:22] 10.0.0.1:5 закрыто"
        ]
    );
    assert_eq!(
        step(false, ForwardEvent::RelayEnded(Some("e".to_string()))),
        (none, ForwardNext::Close)
    );
    assert_eq!(
        step(true, ForwardEvent::RelayEnded(Some("e".to_string()))).0,
        vec![
            "[-L localhost:22] 10.0.0.1:5: ошибка проброса: e",
            "[-L localhost:22] 10.0.0.1:5 закрыто"
        ]
    );
    assert_eq!(
        step(true, ForwardEvent::RelayEnded(None)).0,
        vec!["[-L localhost:22] 10.0.0.1:5 закрыто"]
    );
}

#[test]
fn proxy_events() {
    let t = |s: &str| s.to_string();
    let step = |e: ProxyEvent, verbose: bool| {
        let s = proxy_step(e, verbose);
        (s.line, s.next)
    };
    assert_eq!(
        step(ProxyEvent::AcceptFailed(t("e")), false),
        (Some(t("[-D] accept error: e")), ProxyNext::Accept)
    );
    assert_eq!(step(ProxyEvent::Accepted, true), (None, ProxyNext::Converse));
    let connecting = || ProxyEvent::Connecting { host: t("h"), port: 443 };
    assert_eq!(step(connecting(), false), (None, ProxyNext::OpenSession));
    assert_eq!(
        step(connecting(), true),
        (Some(t("[-D] CONNECT h:443")), ProxyNext::OpenSession)
    );
    let ended = |failure: Option<String>| ProxyEvent::RelayEnded { host: t("h"), port: 443, failure };
    assert_eq!(step(ended(Some(t("e"))), false), (None, ProxyNext::Close));
    assert_eq!(
        step(ended(Some(t("e"))), true),
        (Some(t("[-D] h:443: ошибка проброса: e")), ProxyNext::Close)
    );
    assert_eq!(step(ended(None), true), (None, ProxyNext::Close));
    assert_eq!(
        step(ProxyEvent::ClientFailed { peer: t("p"), error: t("e") }, false),
        (Some(t("[-D] p: e")), ProxyNext::Close)
    );
}

/// What the steps do where the listeners give these results: lines and steps.
fn set_up(listeners: &Vec<Listener>, results: &[Option<&str>]) -> (Vec<String>, Vec<String>) {
    let mut lines = Vec::new();
    let mut steps = Vec::new();
    let mut step = setup_step(listeners, 0, None);
    loop {
        lines.extend(step.line);
        match step.next {
            SetupNext::Bind(i) => {
                steps.push(format!("bind {}", i));
                let failure = results[i].map(|e| e.to_string());
                let bound = if failure.is_some() { i } else { i + 1 };
                step = setup_step(listeners, bound, failure);
            }
            SetupNext::Fail(e) => {
                steps.push(e);
                return (lines, steps);
            }
            SetupNext::ServeAll => {
                steps.push("serve".to_string());
                return (lines, steps);
            }
        }
    }
}

#[test]
fn listeners_are_opened_before_any_is_served() {
    let listeners = match plan_tunnel(&accepted(
        &["--id", "7", "--password", "p", "-D", "1080", "-L", "1:h:2"],
        None,
    )) {
        TunnelPlan::Listen(l) => l,
        _ => panic!("no listeners"),
    };
    let first = "[-L] 127.0.0.1:1 -> h:2 (id 7)".to_string();
    let second = "[-D] SOCKS5 на 127.0.0.1:1080 (id 7)".to_string();
    let (lines, steps) = set_up(&listeners, &[None, None]);
    assert_eq!(lines, vec![first.clone(), second]);
    assert_eq!(steps, vec!["bind 0", "bind 1", "serve"]);
    let (lines, steps) = set_up(&listeners, &[None, Some("in use")]);
    assert_eq!(lines, vec![first]);
    assert_eq!(
        steps,
        vec!["bind 0", "bind 1", "не удалось слушать 127.0.0.1:1080: in use"]
    );
    let (lines, steps) = set_up(&listeners, &[Some("in use"), None]);
    assert!(lines.is_empty());
    assert_eq!(steps, vec!["bind 0", "не удалось слушать 127.0.0.1:1: in use"]);
}

const INSECURE: &str = "сервер не поддержал сквозное шифрование — соединение отклонено \
                        (используйте --allow-insecure, если это ожидаемо)";

fn reason(w: &LoginWatch) -> String {
    let ended: Result<Option<u8>, u8> = Ok(None);
    match w.settle(ended) {
        Err(SessionFailure::Refused(t)) => t,
        _ => panic!("not refused"),
    }
}

#[test]
fn insecure_connections_are_refused() {
    let mut w = LoginWatch::new(false, true);
    assert!(matches!(
        w.on_msgbox("insecure-connection-nocancel", "t", "x"),
        MsgboxAnswer::Reject
    ));
    assert_eq!(reason(&w), INSECURE);
}

#[test]
fn insecure_connections_can_be_allowed() {
    let mut w = LoginWatch::new(true, false);
    assert!(matches!(w.on_msgbox("insecure-connection-x", "", ""), MsgboxAnswer::Continue));
    assert_eq!(reason(&w), "соединение отклонено сервером");
}

#[test]
fn other_message_boxes_are_shown_if_verbose() {
    let mut w = LoginWatch::new(true, true);
    match w.on_msgbox("error", "Title", "Text") {
        MsgboxAnswer::Show(t) => assert_eq!(t, "[error] Title: Text"),
        _ => panic!("not shown"),
    }
    let mut w = LoginWatch::new(true, false);
    assert!(matches!(w.on_msgbox("insecure", "Title", "Text"), MsgboxAnswer::Silent));
}

#[test]
fn last_reason_of_a_refusal_is_reported() {
    let mut w = LoginWatch::new(false, false);
    assert_eq!(reason(&w), "соединение отклонено сервером");
    w.on_msgbox("insecure-connection", "", "");
    assert_eq!(w.on_login_error("Wrong Password"), "login error: Wrong Password");
    w.on_msgbox("info", "", "");
    assert_eq!(reason(&w), "Wrong Password");
}

#[test]
fn login_results() {
    let w = LoginWatch::new(false, false);
    let ok: Result<Option<u8>, String> = Ok(Some(7));
    assert!(matches!(w.settle(ok), Ok(7)));
    let err: Result<Option<u8>, String> = Err("broken".to_string());
    assert!(matches!(w.settle(err), Err(SessionFailure::Transport(e)) if e == "broken"));
    assert_eq!(w.on_peer_info("h", "p", "v"), None);
    assert_eq!(
        LoginWatch::new(false, true).on_peer_info("h", "p", "v"),
        Some("[connected] hostname=h platform=p version=v".to_string())
    );
}
