//! One terminal session: what to do about each message of the remote side, each
//! chunk of local input and each change of the local window.
//!
//! `TerminalSession` is told of one event at a time and returns the actions to
//! perform, in order. Its last action, if any, is to finish.
use crate::text::{decimal_text, push_decimal, push_signed, same_text, signed_text};
use vstd::prelude::*;
use vstd::string::*;

verus! {

/// A message of the remote side, or the end of its messages.
pub enum PeerEvent {
    /// The challenge that a login answers.
    Hash,
    /// The login was refused, for this reason.
    LoginError(String),
    /// The login was accepted.
    LoggedIn { hostname: String, platform: String, version: String },
    /// The answer to the request to open a terminal.
    Opened { success: bool, pid: u32, message: String },
    /// Output of the terminal.
    Data { compressed: bool, data: Vec<u8> },
    /// The program in the terminal has ended.
    Closed { exit_code: i32 },
    /// An error of the terminal that does not end the session.
    Failed { message: String },
    /// A message that a terminal session has no use for, or that cannot be
    /// decoded.
    Other,
    /// The connection broke, for this reason.
    Broken(String),
    /// The connection was closed.
    Ended,
}

/// `PeerEvent` with texts and bytes as sequences.
pub enum PeerModel {
    Hash,
    LoginError(Seq<char>),
    LoggedIn { hostname: Seq<char>, platform: Seq<char>, version: Seq<char> },
    Opened { success: bool, pid: u32, message: Seq<char> },
    Data { compressed: bool, data: Seq<u8> },
    Closed { exit_code: i32 },
    Failed { message: Seq<char> },
    Other,
    Broken(Seq<char>),
    Ended,
}

impl View for PeerEvent {
    type V = PeerModel;

    open spec fn view(&self) -> PeerModel {
        match *self {
            PeerEvent::Hash => PeerModel::Hash,
            PeerEvent::LoginError(e) => PeerModel::LoginError(e@),
            PeerEvent::LoggedIn { hostname, platform, version } => PeerModel::LoggedIn {
                hostname: hostname@,
                platform: platform@,
                version: version@,
            },
            PeerEvent::Opened { success, pid, message } => PeerModel::Opened {
                success,
                pid,
                message: message@,
            },
            PeerEvent::Data { compressed, data } => PeerModel::Data { compressed, data: data@ },
            PeerEvent::Closed { exit_code } => PeerModel::Closed { exit_code },
            PeerEvent::Failed { message } => PeerModel::Failed { message: message@ },
            PeerEvent::Other => PeerModel::Other,
            PeerEvent::Broken(e) => PeerModel::Broken(e@),
            PeerEvent::Ended => PeerModel::Ended,
        }
    }
}

/// How a session ended.
#[derive(Clone, Copy, Debug, PartialEq, Eq, Structural)]
pub enum TerminalExit {
    /// As it should: the program succeeds.
    Done,
    /// The password was to be checked and was not accepted: the program fails.
    CheckFailed,
}

/// What to do.
pub enum TerminalAction {
    /// Answer the challenge with the connection's password.
    AnswerHash,
    /// Log in with an account of the remote side. An empty `password` stands
    /// for the connection's password that is already known.
    AdminLogin { os_username: String, os_password: String, password: String, remember: bool },
    /// Write a line to standard error.
    Note(String),
    /// Write a line to standard output.
    Say(String),
    /// Write an event to the debug log.
    Log(String),
    /// Write bytes to the debug log, with their direction.
    Dump { direction: String, data: Vec<u8> },
    /// Write bytes to standard output and flush it.
    Output(Vec<u8>),
    /// Decompress the bytes and hand them to `on_decompressed`, before anything
    /// else is taken in.
    Decompress(Vec<u8>),
    /// Ask the remote side for a terminal.
    SendOpen { terminal_id: i32, rows: u32, cols: u32 },
    /// Send local input.
    SendData { terminal_id: i32, data: Vec<u8> },
    /// Send the new size of the local window.
    SendResize { terminal_id: i32, rows: u32, cols: u32 },
    /// Set the local terminal to raw mode without echo.
    EnterRaw,
    /// Hold a guard that restores the local terminal when it is dropped. One
    /// that is already held is dropped.
    HoldGuard,
    /// End the session, and drop the guard.
    Finish(TerminalExit),
}

/// `TerminalAction` with texts and bytes as sequences.
pub enum ActionModel {
    AnswerHash,
    AdminLogin {
        os_username: Seq<char>,
        os_password: Seq<char>,
        password: Seq<char>,
        remember: bool,
    },
    Note(Seq<char>),
    Say(Seq<char>),
    Log(Seq<char>),
    Dump { direction: Seq<char>, data: Seq<u8> },
    Output(Seq<u8>),
    Decompress(Seq<u8>),
    SendOpen { terminal_id: i32, rows: u32, cols: u32 },
    SendData { terminal_id: i32, data: Seq<u8> },
    SendResize { terminal_id: i32, rows: u32, cols: u32 },
    EnterRaw,
    HoldGuard,
    Finish(TerminalExit),
}

impl View for TerminalAction {
    type V = ActionModel;

    open spec fn view(&self) -> ActionModel {
        match *self {
            TerminalAction::AnswerHash => ActionModel::AnswerHash,
            TerminalAction::AdminLogin { os_username, os_password, password, remember } =>
                ActionModel::AdminLogin {
                os_username: os_username@,
                os_password: os_password@,
                password: password@,
                remember,
            },
            TerminalAction::Note(t) => ActionModel::Note(t@),
            TerminalAction::Say(t) => ActionModel::Say(t@),
            TerminalAction::Log(t) => ActionModel::Log(t@),
            TerminalAction::Dump { direction, data } => ActionModel::Dump {
                direction: direction@,
                data: data@,
            },
            TerminalAction::Output(b) => ActionModel::Output(b@),
            TerminalAction::Decompress(b) => ActionModel::Decompress(b@),
            TerminalAction::SendOpen { terminal_id, rows, cols } => ActionModel::SendOpen {
                terminal_id,
                rows,
                cols,
            },
            TerminalAction::SendData { terminal_id, data } => ActionModel::SendData {
                terminal_id,
                data: data@,
            },
            TerminalAction::SendResize { terminal_id, rows, cols } => ActionModel::SendResize {
                terminal_id,
                rows,
                cols,
            },
            TerminalAction::EnterRaw => ActionModel::EnterRaw,
            TerminalAction::HoldGuard => ActionModel::HoldGuard,
            TerminalAction::Finish(e) => ActionModel::Finish(e),
        }
    }
}

/// The actions of a list, in order.
pub open spec fn models(actions: Seq<TerminalAction>) -> Seq<ActionModel> {
    actions.map_values(|a: TerminalAction| a@)
}

/// What a session knows.
pub struct TerminalModel {
    /// The account of the remote side to log in with, if the terminal is to
    /// run as its administrator.
    pub admin: Option<(Seq<char>, Seq<char>)>,
    pub rows: u32,
    pub cols: u32,
    /// Whether the session only checks the password.
    pub check_only: bool,
    /// Whether the remote side has opened a terminal.
    pub opened: bool,
    /// Whether compressed output is being decompressed. Nothing else is taken
    /// in until it has been shown.
    pub awaiting: bool,
    /// How the session ended, if it has.
    pub exit: Option<TerminalExit>,
}

// ---- lines ----

pub open spec fn login_error_text(error: Seq<char>) -> Seq<char> {
    "login error: "@ + error
}

/// The line on a refused login.
pub fn login_error_line(error: &str) -> (t: String)
    ensures
        t@ == login_error_text(error@),
{
    with_text("login error: ", error)
}

pub open spec fn connected_text(
    hostname: Seq<char>,
    platform: Seq<char>,
    version: Seq<char>,
) -> Seq<char> {
    "[connected] hostname="@ + hostname + " platform="@ + platform + " version="@ + version
}

/// The line on an accepted login.
pub fn connected_line(hostname: &str, platform: &str, version: &str) -> (t: String)
    ensures
        t@ == connected_text(hostname@, platform@, version@),
{
    let mut out: String = "[connected] hostname=".to_owned();
    out.append(hostname);
    out.append(" platform=");
    out.append(platform);
    out.append(" version=");
    out.append(version);
    out
}

fn with_text(before: &str, after: &str) -> (t: String)
    ensures
        t@ == before@ + after@,
{
    before.to_owned().concat(after)
}

fn with_number(before: &str, n: u32) -> (t: String)
    ensures
        t@ == before@ + decimal_text(n as nat),
{
    let mut out: String = before.to_owned();
    push_decimal(&mut out, n as u128);
    out
}

fn with_signed(before: &str, n: i32) -> (t: String)
    ensures
        t@ == before@ + signed_text(n as int),
{
    let mut out: String = before.to_owned();
    push_signed(&mut out, n as i64);
    out
}

pub open spec fn msgbox_text(
    msgtype: Seq<char>,
    title: Seq<char>,
    text: Seq<char>,
) -> Seq<char> {
    if msgtype == "terminal-admin-login"@ || msgtype == "terminal-admin-login-password"@ {
        "[terminal] управляемая сторона запросила admin-логин ("@ + msgtype + ")"@
    } else {
        "["@ + msgtype + "] "@ + title + ": "@ + text
    }
}

/// The line for a message box that a terminal session is shown. One that asks
/// for an account of the remote side has neither title nor text.
pub fn msgbox_line(msgtype: &str, title: &str, text: &str) -> (t: String)
    ensures
        t@ == msgbox_text(msgtype@, title@, text@),
{
    if same_text(msgtype, "terminal-admin-login") || same_text(
        msgtype,
        "terminal-admin-login-password",
    ) {
        with_text("[terminal] управляемая сторона запросила admin-логин (", msgtype).concat(")")
    } else {
        with_text("[", msgtype).concat("] ").concat(title).concat(": ").concat(text)
    }
}

// ---- what follows from an event ----

/// How a session ends that gets no further answer.
pub open spec fn exit_without_answer(check_only: bool) -> TerminalExit {
    if check_only {
        TerminalExit::CheckFailed
    } else {
        TerminalExit::Done
    }
}

/// What becomes of a session that ends after `actions`.
pub open spec fn ends(
    m: TerminalModel,
    actions: Seq<ActionModel>,
    exit: TerminalExit,
) -> (TerminalModel, Seq<ActionModel>) {
    (TerminalModel { exit: Some(exit), ..m }, actions.push(ActionModel::Finish(exit)))
}

/// Output of the terminal is shown as it is, and logged.
pub open spec fn show_actions(data: Seq<u8>) -> Seq<ActionModel> {
    seq![ActionModel::Dump { direction: "IN"@, data }, ActionModel::Output(data)]
}

/// What follows from an answer of the terminal. A session that only checks the
/// password has no terminal, and takes no notice.
pub open spec fn terminal_answer(
    m: TerminalModel,
    event: PeerModel,
) -> (TerminalModel, Seq<ActionModel>) {
    if m.check_only {
        (m, seq![])
    } else {
        match event {
            PeerModel::Opened { success, pid, message } => if success {
                (
                    TerminalModel { opened: true, ..m },
                    seq![
                        ActionModel::Note(
                            "[terminal opened, pid="@ + decimal_text(pid as nat) + "]"@,
                        ),
                        ActionModel::Log("Opened pid="@ + decimal_text(pid as nat)),
                        ActionModel::EnterRaw,
                        ActionModel::HoldGuard,
                    ],
                )
            } else {
                ends(
                    m,
                    seq![
                        ActionModel::Note("не удалось открыть терминал: "@ + message),
                        ActionModel::Log("Opened FAILED: "@ + message),
                    ],
                    TerminalExit::Done,
                )
            },
            PeerModel::Data { compressed, data } => if compressed {
                (TerminalModel { awaiting: true, ..m }, seq![ActionModel::Decompress(data)])
            } else {
                (m, show_actions(data))
            },
            PeerModel::Closed { exit_code } => ends(
                m,
                seq![
                    ActionModel::Note(
                        "[terminal closed, exit_code="@ + signed_text(exit_code as int) + "]"@,
                    ),
                    ActionModel::Log("Closed exit_code="@ + signed_text(exit_code as int)),
                ],
                TerminalExit::Done,
            ),
            PeerModel::Failed { message } => (
                m,
                seq![
                    ActionModel::Note("[terminal error: "@ + message + "]"@),
                    ActionModel::Log("Error: "@ + message),
                ],
            ),
            _ => (m, seq![]),
        }
    }
}

/// What follows from a message of the remote side: what the session then knows,
/// and what to do.
pub open spec fn react(m: TerminalModel, event: PeerModel) -> (TerminalModel, Seq<ActionModel>) {
    match event {
        PeerModel::Hash => (
            m,
            match m.admin {
                Some((user, password)) => seq![
                    ActionModel::AnswerHash,
                    ActionModel::AdminLogin {
                        os_username: user,
                        os_password: password,
                        password: ""@,
                        remember: false,
                    },
                ],
                None => seq![ActionModel::AnswerHash],
            },
        ),
        PeerModel::LoginError(error) => ends(
            m,
            seq![ActionModel::Note(login_error_text(error))],
            exit_without_answer(m.check_only),
        ),
        PeerModel::LoggedIn { hostname, platform, version } => {
            let note = ActionModel::Note(connected_text(hostname, platform, version));
            if m.check_only {
                ends(m, seq![note, ActionModel::Say("AUTH_OK"@)], TerminalExit::Done)
            } else {
                (
                    m,
                    seq![
                        note,
                        ActionModel::SendOpen { terminal_id: 0, rows: m.rows, cols: m.cols },
                    ],
                )
            }
        },
        PeerModel::Broken(error) => ends(
            m,
            seq![
                ActionModel::Note("connection error: "@ + error),
                ActionModel::Log("connection error: "@ + error),
            ],
            exit_without_answer(m.check_only),
        ),
        PeerModel::Ended => ends(
            m,
            seq![ActionModel::Log("stream ended (None)"@)],
            exit_without_answer(m.check_only),
        ),
        _ => terminal_answer(m, event),
    }
}

/// What follows from output that was decompressed.
pub open spec fn decompressed(
    m: TerminalModel,
    data: Seq<u8>,
) -> (TerminalModel, Seq<ActionModel>) {
    (TerminalModel { awaiting: false, ..m }, show_actions(data))
}

/// What follows from local input.
pub open spec fn input_actions(data: Seq<u8>) -> Seq<ActionModel> {
    seq![
        ActionModel::Dump { direction: "OUT"@, data },
        ActionModel::SendData { terminal_id: 0, data },
    ]
}

/// What follows from a change of the local window, with its new size if that
/// could be found out.
pub open spec fn resize_actions(size: Option<(u32, u32)>) -> Seq<ActionModel> {
    match size {
        Some((rows, cols)) => seq![ActionModel::SendResize { terminal_id: 0, rows, cols }],
        None => seq![],
    }
}

/// A session that has just connected.
pub open spec fn session_begins(
    check_only: bool,
    admin: Option<(Seq<char>, Seq<char>)>,
    size: (u32, u32),
) -> TerminalModel {
    TerminalModel {
        admin,
        rows: size.0,
        cols: size.1,
        check_only,
        opened: false,
        awaiting: false,
        exit: None,
    }
}

/// Whether a session can be told of local input and changes of the window.
pub open spec fn takes_input(m: TerminalModel) -> bool {
    m.opened && !m.awaiting && m.exit is None
}

fn show(data: Vec<u8>) -> (actions: Vec<TerminalAction>)
    ensures
        models(actions@) == show_actions(data@),
{
    let copy: Vec<u8> = data.clone();
    assert(copy@ == data@);
    let actions: Vec<TerminalAction> = vec![
        TerminalAction::Dump { direction: "IN".to_owned(), data: copy },
        TerminalAction::Output(data),
    ];
    assert(models(actions@) == show_actions(data@));
    actions
}

/// One terminal session.
pub struct TerminalSession {
    admin: Option<(String, String)>,
    rows: u32,
    cols: u32,
    check_only: bool,
    opened: bool,
    awaiting: bool,
    exit: Option<TerminalExit>,
}

impl View for TerminalSession {
    type V = TerminalModel;

    closed spec fn view(&self) -> TerminalModel {
        TerminalModel {
            admin: match self.admin {
                Some((user, password)) => Some((user@, password@)),
                None => None,
            },
            rows: self.rows,
            cols: self.cols,
            check_only: self.check_only,
            opened: self.opened,
            awaiting: self.awaiting,
            exit: self.exit,
        }
    }
}

impl TerminalSession {
    /// A session that has just connected. `admin` holds the user and password
    /// of an account of the remote side; `size` is rows and columns.
    pub fn new(check_only: bool, admin: Option<(String, String)>, size: (u32, u32)) -> (s:
        TerminalSession)
        ensures
            s@ == session_begins(check_only, admin.deep_view(), size),
            s@ == (TerminalModel {
                admin: match admin {
                    Some((user, password)) => Some((user@, password@)),
                    None => None,
                },
                rows: size.0,
                cols: size.1,
                check_only,
                opened: false,
                awaiting: false,
                exit: None,
            }),
    {
        TerminalSession {
            admin,
            rows: size.0,
            cols: size.1,
            check_only,
            opened: false,
            awaiting: false,
            exit: None,
        }
    }

    /// Whether local input and changes of the window are to be waited for.
    pub fn accepts_input(&self) -> (yes: bool)
        ensures
            yes == takes_input(self@),
            yes == (self@.opened && !self@.awaiting && self@.exit is None),
    {
        self.opened && !self.awaiting && self.exit.is_none()
    }

    /// How the session ended, if it has.
    pub fn exit(&self) -> (exit: Option<TerminalExit>)
        ensures
            exit == self@.exit,
    {
        self.exit
    }

    fn exit_unanswered(&self) -> (exit: TerminalExit)
        ensures
            exit == exit_without_answer(self@.check_only),
    {
        if self.check_only {
            TerminalExit::CheckFailed
        } else {
            TerminalExit::Done
        }
    }

    fn end(&mut self, actions: Vec<TerminalAction>, exit: TerminalExit) -> (all: Vec<
        TerminalAction,
    >)
        ensures
            (final(self)@, models(all@)) == ends(old(self)@, models(actions@), exit),
    {
        let mut all: Vec<TerminalAction> = actions;
        all.push(TerminalAction::Finish(exit));
        self.exit = Some(exit);
        assert(models(all@) == models(actions@).push(ActionModel::Finish(exit)));
        all
    }

    /// Takes in a message of the remote side.
    pub fn on_peer(&mut self, event: PeerEvent) -> (actions: Vec<TerminalAction>)
        requires
            old(self)@.exit is None,
            !old(self)@.awaiting,
        ensures
            (final(self)@, models(actions@)) == react(old(self)@, event@),
    {
        match event {
            PeerEvent::Hash => {
                let mut actions: Vec<TerminalAction> = vec![TerminalAction::AnswerHash];
                if let Some((user, password)) = &self.admin {
                    actions.push(
                        TerminalAction::AdminLogin {
                            os_username: user.clone(),
                            os_password: password.clone(),
                            password: "".to_owned(),
                            remember: false,
                        },
                    );
                }
                assert(models(actions@) == react(old(self)@, event@).1);
                actions
            },
            PeerEvent::LoginError(error) => {
                let line: String = login_error_line(error.as_str());
                let actions: Vec<TerminalAction> = vec![TerminalAction::Note(line)];
                assert(models(actions@) == seq![ActionModel::Note(login_error_text(error@))]);
                let exit: TerminalExit = self.exit_unanswered();
                self.end(actions, exit)
            },
            PeerEvent::LoggedIn { hostname, platform, version } => {
                let line: String = connected_line(
                    hostname.as_str(),
                    platform.as_str(),
                    version.as_str(),
                );
                if self.check_only {
                    let actions: Vec<TerminalAction> = vec![
                        TerminalAction::Note(line),
                        TerminalAction::Say("AUTH_OK".to_owned()),
                    ];
                    assert(models(actions@) == seq![
                        ActionModel::Note(connected_text(hostname@, platform@, version@)),
                        ActionModel::Say("AUTH_OK"@),
                    ]);
                    self.end(actions, TerminalExit::Done)
                } else {
                    let actions: Vec<TerminalAction> = vec![
                        TerminalAction::Note(line),
                        TerminalAction::SendOpen {
                            terminal_id: 0,
                            rows: self.rows,
                            cols: self.cols,
                        },
                    ];
                    assert(models(actions@) == react(old(self)@, event@).1);
                    actions
                }
            },
            PeerEvent::Broken(error) => {
                let actions: Vec<TerminalAction> = vec![
                    TerminalAction::Note(with_text("connection error: ", error.as_str())),
                    TerminalAction::Log(with_text("connection error: ", error.as_str())),
                ];
                assert(models(actions@) == seq![
                    ActionModel::Note("connection error: "@ + error@),
                    ActionModel::Log("connection error: "@ + error@),
                ]);
                let exit: TerminalExit = self.exit_unanswered();
                self.end(actions, exit)
            },
            PeerEvent::Ended => {
                let actions: Vec<TerminalAction> = vec![
                    TerminalAction::Log("stream ended (None)".to_owned()),
                ];
                assert(models(actions@) == seq![ActionModel::Log("stream ended (None)"@)]);
                let exit: TerminalExit = self.exit_unanswered();
                self.end(actions, exit)
            },
            other => self.on_terminal_answer(other),
        }
    }

    fn on_terminal_answer(&mut self, event: PeerEvent) -> (actions: Vec<TerminalAction>)
        ensures
            (final(self)@, models(actions@)) == terminal_answer(old(self)@, event@),
    {
        if self.check_only {
            let actions: Vec<TerminalAction> = Vec::new();
            assert(models(actions@) == Seq::<ActionModel>::empty());
            return actions;
        }
        match event {
            PeerEvent::Opened { success, pid, message } => if success {
                self.opened = true;
                let actions: Vec<TerminalAction> = vec![
                    TerminalAction::Note(with_number("[terminal opened, pid=", pid).concat("]")),
                    TerminalAction::Log(with_number("Opened pid=", pid)),
                    TerminalAction::EnterRaw,
                    TerminalAction::HoldGuard,
                ];
                assert(models(actions@) == terminal_answer(old(self)@, event@).1);
                actions
            } else {
                let actions: Vec<TerminalAction> = vec![
                    TerminalAction::Note(
                        with_text("не удалось открыть терминал: ", message.as_str()),
                    ),
                    TerminalAction::Log(with_text("Opened FAILED: ", message.as_str())),
                ];
                assert(models(actions@) == seq![
                    ActionModel::Note("не удалось открыть терминал: "@ + message@),
                    ActionModel::Log("Opened FAILED: "@ + message@),
                ]);
                self.end(actions, TerminalExit::Done)
            },
            PeerEvent::Data { compressed, data } => if compressed {
                self.awaiting = true;
                let actions: Vec<TerminalAction> = vec![TerminalAction::Decompress(data)];
                assert(models(actions@) == seq![ActionModel::Decompress(data@)]);
                actions
            } else {
                show(data)
            },
            PeerEvent::Closed { exit_code } => {
                let actions: Vec<TerminalAction> = vec![
                    TerminalAction::Note(
                        with_signed("[terminal closed, exit_code=", exit_code).concat("]"),
                    ),
                    TerminalAction::Log(with_signed("Closed exit_code=", exit_code)),
                ];
                assert(models(actions@) == seq![
                    ActionModel::Note(
                        "[terminal closed, exit_code="@ + signed_text(exit_code as int) + "]"@,
                    ),
                    ActionModel::Log("Closed exit_code="@ + signed_text(exit_code as int)),
                ]);
                self.end(actions, TerminalExit::Done)
            },
            PeerEvent::Failed { message } => {
                let actions: Vec<TerminalAction> = vec![
                    TerminalAction::Note(with_text("[terminal error: ", message.as_str()).concat("]")),
                    TerminalAction::Log(with_text("Error: ", message.as_str())),
                ];
                assert(models(actions@) == terminal_answer(old(self)@, event@).1);
                actions
            },
            _ => {
                let actions: Vec<TerminalAction> = Vec::new();
                assert(models(actions@) == Seq::<ActionModel>::empty());
                actions
            },
        }
    }

    /// Takes in what the output in the last `Decompress` action was decompressed
    /// to.
    pub fn on_decompressed(&mut self, data: Vec<u8>) -> (actions: Vec<TerminalAction>)
        requires
            old(self)@.awaiting,
            old(self)@.exit is None,
        ensures
            (final(self)@, models(actions@)) == decompressed(old(self)@, data@),
    {
        self.awaiting = false;
        show(data)
    }

    /// Takes in a chunk of local input.
    pub fn on_input(&self, data: Vec<u8>) -> (actions: Vec<TerminalAction>)
        requires
            self@.opened,
            !self@.awaiting,
            self@.exit is None,
        ensures
            models(actions@) == input_actions(data@),
    {
        let copy: Vec<u8> = data.clone();
        assert(copy@ == data@);
        let actions: Vec<TerminalAction> = vec![
            TerminalAction::Dump { direction: "OUT".to_owned(), data: copy },
            TerminalAction::SendData { terminal_id: 0, data },
        ];
        assert(models(actions@) == input_actions(data@));
        actions
    }

    /// Takes in a change of the local window.
    pub fn on_resize(&self, size: Option<(u32, u32)>) -> (actions: Vec<TerminalAction>)
        requires
            self@.opened,
            !self@.awaiting,
            self@.exit is None,
        ensures
            models(actions@) == resize_actions(size),
    {
        let mut actions: Vec<TerminalAction> = Vec::new();
        if let Some((rows, cols)) = size {
            actions.push(TerminalAction::SendResize { terminal_id: 0, rows, cols });
        }
        assert(models(actions@) == resize_actions(size));
        actions
    }
}

// ---- laws ----

/// A session begins with the account, the size and the work that it was given,
/// with no terminal open, nothing to wait for and no end.
pub proof fn session_begins_as_it_was_asked(
    check_only: bool,
    admin: Option<(Seq<char>, Seq<char>)>,
    rows: u32,
    cols: u32,
)
    ensures
        ({
            let m = session_begins(check_only, admin, (rows, cols));
            &&& m.check_only == check_only
            &&& m.admin == admin
            &&& m.rows == rows
            &&& m.cols == cols
            &&& !m.opened
            &&& !m.awaiting
            &&& m.exit is None
            &&& !takes_input(m)
        }),
{
}

/// Input is waited for exactly from the opening of a terminal to the end of the
/// session, except while output is being decompressed.
pub proof fn when_input_is_waited_for(m: TerminalModel)
    ensures
        m.opened && !m.awaiting && m.exit is None ==> takes_input(m),
        !m.opened ==> !takes_input(m),
        m.awaiting ==> !takes_input(m),
        m.exit is Some ==> !takes_input(m),
{
}

/// A challenge is answered once, and behind that the account is sent, exactly
/// where there is one; the session stays as it is.
pub proof fn challenge_is_answered(m: TerminalModel)
    ensures
        react(m, PeerModel::Hash).0 == m,
        react(m, PeerModel::Hash).1.len() == (if m.admin is Some {
            2nat
        } else {
            1nat
        }),
        react(m, PeerModel::Hash).1[0] is AnswerHash,
        m.admin matches Some((user, password)) ==> react(m, PeerModel::Hash).1[1] == (
        ActionModel::AdminLogin {
            os_username: user,
            os_password: password,
            password: ""@,
            remember: false,
        }),
{
}

/// A refused login is told of and ends the session: the program fails where only
/// the password was to be checked, and otherwise succeeds.
pub proof fn refused_login_ends_the_session(m: TerminalModel, error: Seq<char>)
    ensures
        ({
            let (after, actions) = react(m, PeerModel::LoginError(error));
            let exit = if m.check_only {
                TerminalExit::CheckFailed
            } else {
                TerminalExit::Done
            };
            &&& after == (TerminalModel { exit: Some(exit), ..m })
            &&& actions == seq![
                ActionModel::Note("login error: "@ + error),
                ActionModel::Finish(exit),
            ]
        }),
{
    let note = ActionModel::Note("login error: "@ + error);
    let exit = exit_without_answer(m.check_only);
    assert(seq![note].push(ActionModel::Finish(exit)) == seq![note, ActionModel::Finish(exit)]);
}

/// An accepted login is told of, with the remote side's name, platform and
/// version. Where only the password is checked, `AUTH_OK` is said and the program
/// succeeds; otherwise a terminal of the session's size is asked for.
pub proof fn accepted_login_is_acted_on(
    m: TerminalModel,
    hostname: Seq<char>,
    platform: Seq<char>,
    version: Seq<char>,
)
    ensures
        ({
            let (after, actions) = react(m, (PeerModel::LoggedIn { hostname, platform, version }));
            let note = ActionModel::Note(
                "[connected] hostname="@ + hostname + " platform="@ + platform + " version="@
                    + version,
            );
            &&& m.check_only ==> after == (TerminalModel { exit: Some(TerminalExit::Done), ..m })
                && actions == seq![
                note,
                ActionModel::Say("AUTH_OK"@),
                ActionModel::Finish(TerminalExit::Done),
            ]
            &&& !m.check_only ==> after == m && actions == seq![
                note,
                (ActionModel::SendOpen { terminal_id: 0, rows: m.rows, cols: m.cols }),
            ]
        }),
{
    let note = ActionModel::Note(connected_text(hostname, platform, version));
    let said = ActionModel::Say("AUTH_OK"@);
    let end = ActionModel::Finish(TerminalExit::Done);
    assert(seq![note, said].push(end) == seq![note, said, end]);
}

/// The end of the connection ends the session: the program fails where only the
/// password was to be checked, and otherwise succeeds. An error is told of and
/// logged, and a plain end is only logged.
pub proof fn end_of_the_connection_ends_the_session(m: TerminalModel, error: Seq<char>)
    ensures
        ({
            let exit = if m.check_only {
                TerminalExit::CheckFailed
            } else {
                TerminalExit::Done
            };
            let ended = TerminalModel { exit: Some(exit), ..m };
            &&& react(m, PeerModel::Broken(error)) == (
                ended,
                seq![
                    ActionModel::Note("connection error: "@ + error),
                    ActionModel::Log("connection error: "@ + error),
                    ActionModel::Finish(exit),
                ],
            )
            &&& react(m, PeerModel::Ended) == (
                ended,
                seq![ActionModel::Log("stream ended (None)"@), ActionModel::Finish(exit)],
            )
        }),
{
    let note = ActionModel::Note("connection error: "@ + error);
    let log = ActionModel::Log("connection error: "@ + error);
    let none = ActionModel::Log("stream ended (None)"@);
    let end = ActionModel::Finish(exit_without_answer(m.check_only));
    assert(seq![note, log].push(end) == seq![note, log, end]);
    assert(seq![none].push(end) == seq![none, end]);
}

/// A terminal that was opened is told of and logged, and only then the local
/// terminal is made raw and guarded; from then on there is a terminal. One that
/// could not be opened is told of and logged with the reason, and ends the
/// session as it should end.
pub proof fn answer_to_the_request_for_a_terminal(m: TerminalModel, pid: u32, message: Seq<char>)
    requires
        !m.check_only,
    ensures
        react(m, (PeerModel::Opened { success: true, pid, message })) == (
            (TerminalModel { opened: true, ..m }),
            seq![
                ActionModel::Note("[terminal opened, pid="@ + decimal_text(pid as nat) + "]"@),
                ActionModel::Log("Opened pid="@ + decimal_text(pid as nat)),
                ActionModel::EnterRaw,
                ActionModel::HoldGuard,
            ],
        ),
        react(m, (PeerModel::Opened { success: false, pid, message })) == (
            (TerminalModel { exit: Some(TerminalExit::Done), ..m }),
            seq![
                ActionModel::Note("не удалось открыть терминал: "@ + message),
                ActionModel::Log("Opened FAILED: "@ + message),
                ActionModel::Finish(TerminalExit::Done),
            ],
        ),
{
    let note = ActionModel::Note("не удалось открыть терминал: "@ + message);
    let log = ActionModel::Log("Opened FAILED: "@ + message);
    let end = ActionModel::Finish(TerminalExit::Done);
    assert(seq![note, log].push(end) == seq![note, log, end]);
}

/// The end of the program in the terminal is told of and logged with its exit
/// code, and ends the session as it should end. An error of the terminal is told
/// of and logged, and ends nothing.
pub proof fn end_and_errors_of_the_terminal(m: TerminalModel, exit_code: i32, message: Seq<char>)
    requires
        !m.check_only,
    ensures
        react(m, (PeerModel::Closed { exit_code })) == (
            (TerminalModel { exit: Some(TerminalExit::Done), ..m }),
            seq![
                ActionModel::Note(
                    "[terminal closed, exit_code="@ + signed_text(exit_code as int) + "]"@,
                ),
                ActionModel::Log("Closed exit_code="@ + signed_text(exit_code as int)),
                ActionModel::Finish(TerminalExit::Done),
            ],
        ),
        react(m, (PeerModel::Failed { message })) == (
            m,
            seq![
                ActionModel::Note("[terminal error: "@ + message + "]"@),
                ActionModel::Log("Error: "@ + message),
            ],
        ),
{
    let note = ActionModel::Note(
        "[terminal closed, exit_code="@ + signed_text(exit_code as int) + "]"@,
    );
    let log = ActionModel::Log("Closed exit_code="@ + signed_text(exit_code as int));
    let end = ActionModel::Finish(TerminalExit::Done);
    assert(seq![note, log].push(end) == seq![note, log, end]);
}

/// Output of the terminal is logged as it came in and then shown, at once where
/// it was not compressed, and otherwise once it is decompressed, which is waited
/// for.
pub proof fn output_is_logged_and_shown(m: TerminalModel, data: Seq<u8>, inflated: Seq<u8>)
    requires
        !m.check_only,
        !m.awaiting,
    ensures
        react(m, (PeerModel::Data { compressed: false, data })) == (
            m,
            seq![(ActionModel::Dump { direction: "IN"@, data }), ActionModel::Output(data)],
        ),
        ({
            let (waiting, actions) = react(m, (PeerModel::Data { compressed: true, data }));
            &&& actions == seq![ActionModel::Decompress(data)]
            &&& waiting == (TerminalModel { awaiting: true, ..m })
            &&& decompressed(waiting, inflated) == (
                m,
                seq![
                    (ActionModel::Dump { direction: "IN"@, data: inflated }),
                    ActionModel::Output(inflated),
                ],
            )
        }),
{
}

/// A session that only checks the password takes no notice of answers of a
/// terminal, and no session does of messages that it has no use for.
pub proof fn messages_without_use_are_passed_over(m: TerminalModel, event: PeerModel)
    requires
        event is Other || (m.check_only && (event is Opened || event is Data || event is Closed
            || event is Failed)),
    ensures
        react(m, event).0 == m,
        react(m, event).1.len() == 0,
{
}

/// What is typed is logged as it goes out and then sent, and a new size of the
/// window is sent where it could be found out, both to the terminal that was
/// asked for.
pub proof fn input_and_sizes_are_sent(data: Seq<u8>, rows: u32, cols: u32)
    ensures
        input_actions(data) == seq![
            (ActionModel::Dump { direction: "OUT"@, data }),
            (ActionModel::SendData { terminal_id: 0, data }),
        ],
        resize_actions(Some((rows, cols))) == seq![
            (ActionModel::SendResize { terminal_id: 0, rows, cols }),
        ],
        resize_actions(None).len() == 0,
{
}

/// What is said of a login and of message boxes: the reason of a refusal; name,
/// platform and version of the remote side; a request for an account by its kind,
/// and any other message box with its kind, title and text.
pub proof fn what_lines_say(
    error: Seq<char>,
    hostname: Seq<char>,
    platform: Seq<char>,
    version: Seq<char>,
    msgtype: Seq<char>,
    title: Seq<char>,
    text: Seq<char>,
)
    ensures
        login_error_text(error) == "login error: "@ + error,
        connected_text(hostname, platform, version) == "[connected] hostname="@ + hostname
            + " platform="@ + platform + " version="@ + version,
        ({
            let asks = "[terminal] управляемая сторона запросила admin-логин ("@;
            &&& msgbox_text("terminal-admin-login"@, title, text) == asks + "terminal-admin-login"@
                + ")"@
            &&& msgbox_text("terminal-admin-login-password"@, title, text) == asks
                + "terminal-admin-login-password"@ + ")"@
            &&& msgtype != "terminal-admin-login"@ && msgtype != "terminal-admin-login-password"@
                ==> msgbox_text(msgtype, title, text) == "["@ + msgtype + "] "@ + title + ": "@
                + text
        }),
{
}

/// What is read of a message is what it holds.
pub proof fn messages_hold_what_was_read(
    a: String,
    b: String,
    c: String,
    success: bool,
    pid: u32,
    compressed: bool,
    data: Vec<u8>,
    exit_code: i32,
)
    ensures
        PeerEvent::Hash@ is Hash,
        PeerEvent::LoginError(a)@ == PeerModel::LoginError(a@),
        (PeerEvent::LoggedIn { hostname: a, platform: b, version: c })@ == (PeerModel::LoggedIn {
            hostname: a@,
            platform: b@,
            version: c@,
        }),
        (PeerEvent::Opened { success, pid, message: a })@ == (PeerModel::Opened {
            success,
            pid,
            message: a@,
        }),
        (PeerEvent::Data { compressed, data })@ == (PeerModel::Data { compressed, data: data@ }),
        (PeerEvent::Closed { exit_code })@ == (PeerModel::Closed { exit_code }),
        (PeerEvent::Failed { message: a })@ == (PeerModel::Failed { message: a@ }),
        PeerEvent::Other@ is Other,
        PeerEvent::Broken(a)@ == PeerModel::Broken(a@),
        PeerEvent::Ended@ is Ended,
{
}

/// What is read of a list of actions is what they hold, one for one.
pub proof fn actions_hold_what_was_read(actions: Seq<TerminalAction>, i: int)
    requires
        0 <= i < actions.len(),
    ensures
        models(actions).len() == actions.len(),
        match actions[i] {
            TerminalAction::AnswerHash => models(actions)[i] is AnswerHash,
            TerminalAction::AdminLogin { os_username, os_password, password, remember } => models(
                actions,
            )[i] == (ActionModel::AdminLogin {
                os_username: os_username@,
                os_password: os_password@,
                password: password@,
                remember,
            }),
            TerminalAction::Note(t) => models(actions)[i] == ActionModel::Note(t@),
            TerminalAction::Say(t) => models(actions)[i] == ActionModel::Say(t@),
            TerminalAction::Log(t) => models(actions)[i] == ActionModel::Log(t@),
            TerminalAction::Dump { direction, data } => models(actions)[i] == (ActionModel::Dump {
                direction: direction@,
                data: data@,
            }),
            TerminalAction::Output(b) => models(actions)[i] == ActionModel::Output(b@),
            TerminalAction::Decompress(b) => models(actions)[i] == ActionModel::Decompress(b@),
            TerminalAction::SendOpen { terminal_id, rows, cols } => models(actions)[i] == (
            ActionModel::SendOpen { terminal_id, rows, cols }),
            TerminalAction::SendData { terminal_id, data } => models(actions)[i] == (
            ActionModel::SendData { terminal_id, data: data@ }),
            TerminalAction::SendResize { terminal_id, rows, cols } => models(actions)[i] == (
            ActionModel::SendResize { terminal_id, rows, cols }),
            TerminalAction::EnterRaw => models(actions)[i] is EnterRaw,
            TerminalAction::HoldGuard => models(actions)[i] is HoldGuard,
            TerminalAction::Finish(e) => models(actions)[i] == ActionModel::Finish(e),
        },
{
}

} // verus!
