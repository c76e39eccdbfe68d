use headless_client::terminal::{msgbox_line, PeerEvent, TerminalAction, TerminalExit, TerminalSession};
use headless_client::terminal_args::{account_step, initial_size, known_credential, parse_terminal_args, size_from_stty, strip_line_end, white_space, AccountStep, HeadlessTerminalArgs, Sources};

fn command(args: &[&str]) -> Option<HeadlessTerminalArgs> {
    let args: Vec<String> = args.iter().map(|a| a.to_string()).collect();
    parse_terminal_args(&args)
}

/// An action in one line.
fn show(a: &TerminalAction) -> String {
    match a {
        TerminalAction::AnswerHash => "hash".to_string(),
        TerminalAction::AdminLogin { os_username, os_password, password, remember } => {
            format!("admin {} {} [{}] {}", os_username, os_password, password, remember)
        }
        TerminalAction::Note(t) => format!("note {}", t),
        TerminalAction::Say(t) => format!("say {}", t),
        TerminalAction::Log(t) => format!("log {}", t),
        TerminalAction::Dump { direction, data } => format!("dump {} {:?}", direction, data),
        TerminalAction::Output(d) => format!("output {:?}", d),
        TerminalAction::Decompress(d) => format!("decompress {:?}", d),
        TerminalAction::SendOpen { terminal_id, rows, cols } => {
            format!("open {} {} {}", terminal_id, rows, cols)
        }
        TerminalAction::SendData { terminal_id, data } => format!("data {} {:?}", terminal_id, data),
        TerminalAction::SendResize { terminal_id, rows, cols } => {
            format!("resize {} {} {}", terminal_id, rows, cols)
        }
        TerminalAction::EnterRaw => "raw".to_string(),
        TerminalAction::HoldGuard => "guard".to_string(),
        TerminalAction::Finish(TerminalExit::Done) => "done".to_string(),
        TerminalAction::Finish(TerminalExit::CheckFailed) => "failed".to_string(),
    }
}

fn all(actions: Vec<TerminalAction>) -> Vec<String> {
    actions.iter().map(show).collect()
}

fn session(check_only: bool) -> TerminalSession {
    TerminalSession::new(check_only, None, (24, 80))
}

fn logged_in() -> PeerEvent {
    PeerEvent::LoggedIn {
        hostname: "pc".to_string(),
        platform: "Windows".to_string(),
        version: "1.4".to_string(),
    }
}

fn opened(success: bool) -> PeerEvent {
    PeerEvent::Opened { success, pid: 42, message: "denied".to_string() }
}

const CONNECTED: &str = "note [connected] hostname=pc platform=Windows version=1.4";

#[test]
fn terminal_command_line() {
    let a = match command(&["--id", "1", "--password", "p"]) {
        Some(a) => a,
        None => panic!("usage"),
    };
    assert_eq!(a.id, "1");
    assert_eq!(a.password, "p");
    assert_eq!((a.rows, a.cols), (None, None));
    assert_eq!(a.debug_log, None);
    assert!(!a.admin && !a.check_only);
    assert_eq!((a.admin_user, a.admin_password), (None, None));

    let a = match command(&[
        "--rows", "50", "--cols", "132", "--debug-log", "/tmp/l", "--admin", "--admin-user", "u",
        "--admin-password", "w", "--check-only", "--password", "p", "--id", "2",
    ]) {
        Some(a) => a,
        None => panic!("usage"),
    };
    assert_eq!((a.rows, a.cols), (Some(50), Some(132)));
    assert_eq!(a.debug_log, Some("/tmp/l".to_string()));
    assert!(a.admin && a.check_only);
    assert_eq!(a.admin_user, Some("u".to_string()));
    assert_eq!(a.admin_password, Some("w".to_string()));
}

#[test]
fn terminal_usage() {
    assert!(command(&[]).is_none());
    assert!(command(&["--id", "1"]).is_none());
    assert!(command(&["--password", "1"]).is_none());
    assert!(command(&["--id", "1", "--password"]).is_none());
    assert!(command(&["--id", "1", "--password", "p", "-h"]).is_none());
    assert!(command(&["--id", "1", "--password", "p", "--help"]).is_none());
    assert!(command(&["--id", "1", "--password", "p", "x"]).is_none());
}

#[test]
fn sizes_that_are_no_numbers_are_left_out() {
    let a = match command(&["--id", "1", "--password", "p", "--rows", "9", "--rows", "x", "--cols", "-1"]) {
        Some(a) => a,
        None => panic!("usage"),
    };
    assert_eq!((a.rows, a.cols), (None, None));
}

#[test]
fn credentials_by_precedence() {
    let t = |s: &str| Some(s.to_string());
    assert_eq!(known_credential(&t("given"), t("env")), t("given"));
    assert_eq!(known_credential(&None, t("env")), t("env"));
    assert_eq!(known_credential(&t(""), t("env")), t(""));
    assert_eq!(known_credential(&None, None), None);
}

/// The account step in one line; each source is the environment's or the typed
/// value.
fn account(
    args: &[&str],
    user: (Option<&str>, Option<&str>),
    password: (Option<&str>, Option<&str>),
) -> String {
    let mut all = vec!["--id", "1", "--password", "p"];
    all.extend_from_slice(args);
    let args = match command(&all) {
        Some(a) => a,
        None => panic!("usage for {:?}", all),
    };
    let sources = |s: (Option<&str>, Option<&str>)| Sources {
        environment: s.0.map(|t| t.to_string()),
        typed: s.1.map(|t| t.to_string()),
    };
    match account_step(&args, sources(user), sources(password)) {
        AccountStep::NotNeeded => "none".to_string(),
        AccountStep::AskUser => "ask user".to_string(),
        AccountStep::AskPassword => "ask password".to_string(),
        AccountStep::Known(u, p) => format!("{} {}", u, p),
    }
}

#[test]
fn account_is_sought_only_for_admin() {
    let none = (None, None);
    let both = (Some("e"), Some("t"));
    assert_eq!(account(&[], none, none), "none");
    assert_eq!(account(&["--admin-user", "u", "--admin-password", "w"], both, both), "none");
    assert_eq!(account(&["--admin"], none, none), "ask user");
    assert_eq!(account(&["--admin"], none, both), "ask user");
    assert_eq!(account(&["--admin"], (None, Some("t")), none), "ask password");
    assert_eq!(account(&["--admin"], (None, Some("t")), (None, Some("s"))), "t s");
    assert_eq!(account(&["--admin"], both, both), "e e");
    assert_eq!(account(&["--admin", "--admin-user", "u"], both, none), "ask password");
    assert_eq!(
        account(&["--admin", "--admin-user", "u", "--admin-password", "w"], both, both),
        "u w"
    );
}

#[test]
fn line_ends_are_stripped() {
    assert_eq!(strip_line_end("admin\n"), "admin");
    assert_eq!(strip_line_end("admin\r\n"), "admin");
    assert_eq!(strip_line_end("a\nb\n\r\n"), "a\nb");
    assert_eq!(strip_line_end(" pass word "), " pass word ");
    assert_eq!(strip_line_end("\n"), "");
    assert_eq!(strip_line_end(""), "");
}

#[test]
fn sizes_of_stty() {
    assert_eq!(size_from_stty(true, b"24 80\n"), Some((24, 80)));
    assert_eq!(size_from_stty(true, b"  24\t80 7 x"), Some((24, 80)));
    assert_eq!(size_from_stty(true, "24\u{2003}80".as_bytes()), Some((24, 80)));
    assert_eq!(size_from_stty(false, b"24 80\n"), None);
    assert_eq!(size_from_stty(true, b""), None);
    assert_eq!(size_from_stty(true, b"24"), None);
    assert_eq!(size_from_stty(true, b"24 x"), None);
    assert_eq!(size_from_stty(true, b"x 80"), None);
    assert_eq!(size_from_stty(true, b"24 80\xff"), None);
}

#[test]
fn white_space_is_that_of_unicode() {
    for c in '\0'..=char::MAX {
        assert_eq!(white_space(c), c.is_whitespace());
    }
}

#[test]
fn size_by_precedence() {
    assert_eq!(initial_size(None, None, None), (24, 80));
    assert_eq!(initial_size(None, None, Some((50, 132))), (50, 132));
    assert_eq!(initial_size(Some(10), None, Some((50, 132))), (10, 132));
    assert_eq!(initial_size(None, Some(20), None), (24, 20));
    assert_eq!(initial_size(Some(1), Some(2), Some((3, 4))), (1, 2));
}

#[test]
fn whole_session() {
    let mut s = TerminalSession::new(false, None, (50, 132));
    assert!(!s.accepts_input());
    assert_eq!(all(s.on_peer(PeerEvent::Hash)), vec!["hash"]);
    assert_eq!(all(s.on_peer(logged_in())), vec![CONNECTED, "open 0 50 132"]);
    assert!(!s.accepts_input());
    assert_eq!(
        all(s.on_peer(opened(true))),
        vec!["note [terminal opened, pid=42]", "log Opened pid=42", "raw", "guard"]
    );
    assert!(s.accepts_input());
    assert_eq!(
        all(s.on_peer(PeerEvent::Data { compressed: false, data: vec![1, 2] })),
        vec!["dump IN [1, 2]", "output [1, 2]"]
    );
    assert_eq!(
        all(s.on_peer(PeerEvent::Data { compressed: true, data: vec![3] })),
        vec!["decompress [3]"]
    );
    assert!(!s.accepts_input());
    assert_eq!(all(s.on_decompressed(vec![9, 9])), vec!["dump IN [9, 9]", "output [9, 9]"]);
    assert!(s.accepts_input());
    assert_eq!(all(s.on_input(vec![4])), vec!["dump OUT [4]", "data 0 [4]"]);
    assert_eq!(all(s.on_resize(Some((30, 90)))), vec!["resize 0 30 90"]);
    assert!(s.on_resize(None).is_empty());
    assert_eq!(
        all(s.on_peer(PeerEvent::Failed { message: "m".to_string() })),
        vec!["note [terminal error: m]", "log Error: m"]
    );
    assert!(s.on_peer(PeerEvent::Other).is_empty());
    assert_eq!(s.exit(), None);
    assert_eq!(
        all(s.on_peer(PeerEvent::Closed { exit_code: -1 })),
        vec!["note [terminal closed, exit_code=-1]", "log Closed exit_code=-1", "done"]
    );
    assert_eq!(s.exit(), Some(TerminalExit::Done));
    assert!(!s.accepts_input());
}

#[test]
fn administrator_logs_in_behind_the_challenge() {
    let account = Some(("u".to_string(), "w".to_string()));
    let mut s = TerminalSession::new(false, account, (24, 80));
    assert_eq!(all(s.on_peer(PeerEvent::Hash)), vec!["hash", "admin u w [] false"]);
    assert_eq!(all(s.on_peer(PeerEvent::Hash)), vec!["hash", "admin u w [] false"]);
}

#[test]
fn sessions_that_end_early() {
    let mut s = session(false);
    assert_eq!(
        all(s.on_peer(PeerEvent::LoginError("no".to_string()))),
        vec!["note login error: no", "done"]
    );
    let mut s = session(false);
    assert_eq!(
        all(s.on_peer(opened(false))),
        vec!["note не удалось открыть терминал: denied", "log Opened FAILED: denied", "done"]
    );
    let mut s = session(false);
    assert_eq!(
        all(s.on_peer(PeerEvent::Broken("e".to_string()))),
        vec!["note connection error: e", "log connection error: e", "done"]
    );
    let mut s = session(false);
    assert_eq!(all(s.on_peer(PeerEvent::Ended)), vec!["log stream ended (None)", "done"]);
    assert_eq!(s.exit(), Some(TerminalExit::Done));
}

#[test]
fn check_succeeds_with_the_login() {
    let mut s = session(true);
    assert_eq!(all(s.on_peer(PeerEvent::Hash)), vec!["hash"]);
    assert_eq!(all(s.on_peer(logged_in())), vec![CONNECTED, "say AUTH_OK", "done"]);
    assert_eq!(s.exit(), Some(TerminalExit::Done));
}

#[test]
fn check_fails_without_the_login() {
    let mut s = session(true);
    assert_eq!(
        all(s.on_peer(PeerEvent::LoginError("no".to_string()))),
        vec!["note login error: no", "failed"]
    );
    let mut s = session(true);
    assert_eq!(all(s.on_peer(PeerEvent::Ended)), vec!["log stream ended (None)", "failed"]);
    let mut s = session(true);
    s.on_peer(PeerEvent::Broken("e".to_string()));
    assert_eq!(s.exit(), Some(TerminalExit::CheckFailed));
}

#[test]
fn check_takes_no_notice_of_terminals() {
    let mut s = session(true);
    assert!(s.on_peer(opened(true)).is_empty());
    assert!(s.on_peer(opened(false)).is_empty());
    assert!(s.on_peer(PeerEvent::Closed { exit_code: 0 }).is_empty());
    assert!(s.on_peer(PeerEvent::Data { compressed: false, data: vec![1] }).is_empty());
    assert!(!s.accepts_input());
    assert_eq!(s.exit(), None);
}

#[test]
fn message_boxes_of_a_terminal() {
    assert_eq!(msgbox_line("error", "T", "x"), "[error] T: x");
    assert_eq!(
        msgbox_line("terminal-admin-login", "", ""),
        "[terminal] управляемая сторона запросила admin-логин (terminal-admin-login)"
    );
    assert_eq!(
        msgbox_line("terminal-admin-login-password", "", ""),
        "[terminal] управляемая сторона запросила admin-логин (terminal-admin-login-password)"
    );
    assert_eq!(msgbox_line("terminal-admin-login-x", "", ""), "[terminal-admin-login-x] : ");
}
