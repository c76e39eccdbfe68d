//! What a login through the port forwarding client is answered along the way,
//! and what becomes of its result.
use crate::terminal::{connected_line, connected_text, login_error_line, login_error_text};
use crate::text::chars_of;
use vstd::prelude::*;
use vstd::string::*;

verus! {

/// What to do about a message box.
pub enum MsgboxAnswer {
    /// Go on with a connection that is not encrypted.
    Continue,
    /// Refuse a connection that is not encrypted.
    Reject,
    /// Write a line to standard error.
    Show(String),
    /// Nothing.
    Silent,
}

pub enum AnswerModel {
    Continue,
    Reject,
    Show(Seq<char>),
    Silent,
}

impl View for MsgboxAnswer {
    type V = AnswerModel;

    open spec fn view(&self) -> AnswerModel {
        match *self {
            MsgboxAnswer::Continue => AnswerModel::Continue,
            MsgboxAnswer::Reject => AnswerModel::Reject,
            MsgboxAnswer::Show(t) => AnswerModel::Show(t@),
            MsgboxAnswer::Silent => AnswerModel::Silent,
        }
    }
}

/// A login that is under way.
pub struct LoginModel {
    pub allow_insecure: bool,
    pub verbose: bool,
    /// Why the login was last refused, if it was.
    pub last_error: Option<Seq<char>>,
}

/// The reason given for a connection that is refused because it is not
/// encrypted.
pub open spec fn insecure_text() -> Seq<char> {
    "сервер не поддержал сквозное шифрование — соединение отклонено (используйте --allow-insecure, если это ожидаемо)"@
}

/// The reason given where none is known.
pub open spec fn refused_text() -> Seq<char> {
    "соединение отклонено сервером"@
}

/// Whether a message box asks about a connection that is not encrypted.
pub open spec fn asks_insecure(msgtype: Seq<char>) -> bool {
    "insecure-connection"@.is_prefix_of(msgtype)
}

/// The answer to a message box.
pub open spec fn msgbox_answer(
    m: LoginModel,
    msgtype: Seq<char>,
    title: Seq<char>,
    text: Seq<char>,
) -> AnswerModel {
    if asks_insecure(msgtype) {
        if m.allow_insecure {
            AnswerModel::Continue
        } else {
            AnswerModel::Reject
        }
    } else if m.verbose {
        AnswerModel::Show("["@ + msgtype + "] "@ + title + ": "@ + text)
    } else {
        AnswerModel::Silent
    }
}

/// What is known of a login after a message box.
pub open spec fn after_msgbox(m: LoginModel, msgtype: Seq<char>) -> LoginModel {
    if asks_insecure(msgtype) && !m.allow_insecure {
        LoginModel { last_error: Some(insecure_text()), ..m }
    } else {
        m
    }
}

/// The reason that is reported for a login that was refused.
pub open spec fn reported(m: LoginModel) -> Seq<char> {
    match m.last_error {
        Some(t) => t,
        None => refused_text(),
    }
}

/// A login that begins.
pub open spec fn login_begins(allow_insecure: bool, verbose: bool) -> LoginModel {
    LoginModel { allow_insecure, verbose, last_error: None }
}

/// What is known of a login after it was refused.
pub open spec fn after_login_error(m: LoginModel, error: Seq<char>) -> LoginModel {
    LoginModel { last_error: Some(error), ..m }
}

/// The line on an accepted login, if any.
pub open spec fn peer_info_text(
    m: LoginModel,
    hostname: Seq<char>,
    platform: Seq<char>,
    version: Seq<char>,
) -> Option<Seq<char>> {
    if m.verbose {
        Some(connected_text(hostname, platform, version))
    } else {
        None
    }
}

/// Whether the end of a login comes to that session or failure.
pub open spec fn comes_to<T, E>(
    m: LoginModel,
    ended: Result<Option<T>, E>,
    session: Result<T, SessionFailure<E>>,
) -> bool {
    match ended {
        Ok(Some(stream)) => session == Ok::<T, SessionFailure<E>>(stream),
        Ok(None) => session matches Err(SessionFailure::Refused(reason)) && reason@ == reported(m),
        Err(e) => session == Err::<T, SessionFailure<E>>(SessionFailure::Transport(e)),
    }
}

/// Why there is no session.
pub enum SessionFailure<E> {
    /// The login was refused, for this reason.
    Refused(String),
    /// The connection failed.
    Transport(E),
}

fn starts_with(s: &str, prefix: &str) -> (yes: bool)
    ensures
        yes == prefix@.is_prefix_of(s@),
{
    let v: Vec<char> = chars_of(s);
    let p: Vec<char> = chars_of(prefix);
    if p.len() > v.len() {
        return false;
    }
    let mut i: usize = 0;
    while i < p.len()
        invariant
            i <= p@.len() <= v@.len(),
            v@ == s@,
            p@ == prefix@,
            forall|k: int| 0 <= k < i ==> p@[k] == v@[k],
        decreases p@.len() - i,
    {
        if p[i] != v[i] {
            assert(p@[i as int] != s@.subrange(0, p@.len() as int)[i as int]);
            return false;
        }
        i = i + 1;
    }
    assert(p@ == s@.subrange(0, p@.len() as int));
    true
}

/// A login that is under way. Every session has its own.
pub struct LoginWatch {
    allow_insecure: bool,
    verbose: bool,
    last_error: Option<String>,
}

impl View for LoginWatch {
    type V = LoginModel;

    closed spec fn view(&self) -> LoginModel {
        LoginModel {
            allow_insecure: self.allow_insecure,
            verbose: self.verbose,
            last_error: self.last_error.deep_view(),
        }
    }
}

impl LoginWatch {
    /// A login that begins.
    pub fn new(allow_insecure: bool, verbose: bool) -> (w: LoginWatch)
        ensures
            w@ == login_begins(allow_insecure, verbose),
            w@ == (LoginModel { allow_insecure, verbose, last_error: None }),
    {
        LoginWatch { allow_insecure, verbose, last_error: None }
    }

    /// Answers a message box. One that asks whether to go on without encryption
    /// waits for the answer.
    pub fn on_msgbox(&mut self, msgtype: &str, title: &str, text: &str) -> (answer: MsgboxAnswer)
        ensures
            answer@ == msgbox_answer(old(self)@, msgtype@, title@, text@),
            final(self)@ == after_msgbox(old(self)@, msgtype@),
    {
        if starts_with(msgtype, "insecure-connection") {
            if self.allow_insecure {
                MsgboxAnswer::Continue
            } else {
                self.last_error = Some(
                    "сервер не поддержал сквозное шифрование — соединение отклонено (используйте --allow-insecure, если это ожидаемо)".to_owned(),
                );
                MsgboxAnswer::Reject
            }
        } else if self.verbose {
            let mut line: String = "[".to_owned();
            line.append(msgtype);
            line.append("] ");
            line.append(title);
            line.append(": ");
            line.append(text);
            MsgboxAnswer::Show(line)
        } else {
            MsgboxAnswer::Silent
        }
    }

    /// Keeps the reason of a refused login, and returns the line to write.
    pub fn on_login_error(&mut self, error: &str) -> (line: String)
        ensures
            line@ == login_error_text(error@),
            final(self)@ == after_login_error(old(self)@, error@),
            final(self)@ == (LoginModel { last_error: Some(error@), ..old(self)@ }),
    {
        self.last_error = Some(error.to_owned());
        login_error_line(error)
    }

    /// The line to write on an accepted login, if any.
    pub fn on_peer_info(&self, hostname: &str, platform: &str, version: &str) -> (line: Option<
        String,
    >)
        ensures
            line.deep_view() == peer_info_text(self@, hostname@, platform@, version@),
            line.deep_view() == (if self@.verbose {
                Some(connected_text(hostname@, platform@, version@))
            } else {
                None
            }),
    {
        if self.verbose {
            Some(connected_line(hostname, platform, version))
        } else {
            None
        }
    }

    /// What the end of a login comes to. One that ended without an error and
    /// without a stream was refused, for the last reason that was given.
    pub fn settle<T, E>(&self, ended: Result<Option<T>, E>) -> (session: Result<
        T,
        SessionFailure<E>,
    >)
        ensures
            comes_to(self@, ended, session),
            match ended {
                Ok(Some(stream)) => session == Ok::<T, SessionFailure<E>>(stream),
                Ok(None) => session matches Err(SessionFailure::Refused(reason)) && reason@
                    == reported(self@),
                Err(e) => session == Err::<T, SessionFailure<E>>(SessionFailure::Transport(e)),
            },
    {
        match ended {
            Ok(Some(stream)) => Ok(stream),
            Ok(None) => {
                let reason: String = match &self.last_error {
                    Some(t) => t.clone(),
                    None => "соединение отклонено сервером".to_owned(),
                };
                Err(SessionFailure::Refused(reason))
            },
            Err(e) => Err(SessionFailure::Transport(e)),
        }
    }
}

// ---- laws ----

/// What a login is told.
pub enum LoginEvent {
    Msgbox { msgtype: Seq<char>, title: Seq<char>, text: Seq<char> },
    LoginError(Seq<char>),
}

/// What is known of a login after an event.
pub open spec fn after(m: LoginModel, event: LoginEvent) -> LoginModel {
    match event {
        LoginEvent::Msgbox { msgtype, .. } => after_msgbox(m, msgtype),
        LoginEvent::LoginError(error) => LoginModel { last_error: Some(error), ..m },
    }
}

/// What is known of a login after all of the events.
pub open spec fn after_all(m: LoginModel, events: Seq<LoginEvent>) -> LoginModel
    decreases events.len(),
{
    if events.len() == 0 {
        m
    } else {
        after(after_all(m, events.drop_last()), events.last())
    }
}

/// The reason for a refusal that an event gives, if it gives one.
pub open spec fn reason(allow_insecure: bool, event: LoginEvent) -> Option<Seq<char>> {
    match event {
        LoginEvent::Msgbox { msgtype, .. } => if asks_insecure(msgtype) && !allow_insecure {
            Some(insecure_text())
        } else {
            None
        },
        LoginEvent::LoginError(error) => Some(error),
    }
}

/// A connection that is not encrypted is gone on with only where that was
/// allowed, whatever else the login was told.
pub proof fn insecure_connection_needs_permission(
    m: LoginModel,
    events: Seq<LoginEvent>,
    msgtype: Seq<char>,
    title: Seq<char>,
    text: Seq<char>,
)
    ensures
        after_all(m, events).allow_insecure == m.allow_insecure,
        after_all(m, events).verbose == m.verbose,
        msgbox_answer(after_all(m, events), msgtype, title, text) is Continue <==> (
        m.allow_insecure && asks_insecure(msgtype)),
        msgbox_answer(after_all(m, events), msgtype, title, text) is Reject <==> (!m.allow_insecure
            && asks_insecure(msgtype)),
    decreases events.len(),
{
    if events.len() > 0 {
        insecure_connection_needs_permission(m, events.drop_last(), msgtype, title, text);
    }
}

/// The reason that is reported is the last one that was given; where none was,
/// it is that the server refused.
pub proof fn last_reason_is_reported(m: LoginModel, events: Seq<LoginEvent>, k: int)
    requires
        m.last_error is None,
        -1 <= k < events.len(),
        k >= 0 ==> reason(m.allow_insecure, events[k]) is Some,
        forall|i: int|
            k < i < events.len() ==> reason(m.allow_insecure, #[trigger] events[i]) is None,
    ensures
        reported(after_all(m, events)) == (if k >= 0 {
            reason(m.allow_insecure, events[k])->0
        } else {
            refused_text()
        }),
    decreases events.len(),
{
    if events.len() > 0 {
        let before = events.drop_last();
        insecure_connection_needs_permission(m, before, seq![], seq![], seq![]);
        if k < events.len() - 1 {
            assert(reason(m.allow_insecure, events[events.len() - 1]) is None);
            last_reason_is_reported(m, before, k);
        }
    }
}

/// A message box about a connection that is not encrypted is one whose kind
/// begins with `insecure-connection`, and no other. Where that is allowed it is
/// gone on with and nothing is noted; otherwise the connection is refused, and
/// that is the reason to report.
pub proof fn insecure_connection_is_answered(
    m: LoginModel,
    kind: Seq<char>,
    title: Seq<char>,
    text: Seq<char>,
)
    ensures
        ({
            let msgtype = "insecure-connection"@ + kind;
            &&& m.allow_insecure ==> msgbox_answer(m, msgtype, title, text) is Continue
                && after_msgbox(m, msgtype) == m
            &&& !m.allow_insecure ==> msgbox_answer(m, msgtype, title, text) is Reject && reported(
                after_msgbox(m, msgtype),
            )
                == "сервер не поддержал сквозное шифрование — соединение отклонено (используйте --allow-insecure, если это ожидаемо)"@
        }),
{
    let prefix = "insecure-connection"@;
    assert(prefix == (prefix + kind).subrange(0, prefix.len() as int));
}

/// Any other message box leaves the login as it is. It is shown, with its kind,
/// title and text, where `verbose` says so.
pub proof fn other_message_boxes_change_nothing(
    m: LoginModel,
    msgtype: Seq<char>,
    title: Seq<char>,
    text: Seq<char>,
)
    requires
        msgtype.len() < "insecure-connection"@.len() || msgtype.take(
            "insecure-connection"@.len() as int,
        ) != "insecure-connection"@,
    ensures
        after_msgbox(m, msgtype) == m,
        m.verbose ==> msgbox_answer(m, msgtype, title, text) == AnswerModel::Show(
            "["@ + msgtype + "] "@ + title + ": "@ + text,
        ),
        !m.verbose ==> msgbox_answer(m, msgtype, title, text) is Silent,
{
    let prefix = "insecure-connection"@;
    if prefix.is_prefix_of(msgtype) {
        assert(msgtype.take(prefix.len() as int) == msgtype.subrange(0, prefix.len() as int));
    }
}

/// The reason of a refused login is the one to report, and nothing else changes;
/// a login that begins has none yet, and keeps what it was begun with.
pub proof fn reason_of_a_refusal_is_kept(
    m: LoginModel,
    error: Seq<char>,
    allow_insecure: bool,
    verbose: bool,
)
    ensures
        reported(after_login_error(m, error)) == error,
        after_login_error(m, error).allow_insecure == m.allow_insecure,
        after_login_error(m, error).verbose == m.verbose,
        reported(login_begins(allow_insecure, verbose)) == "соединение отклонено сервером"@,
        login_begins(allow_insecure, verbose).allow_insecure == allow_insecure,
        login_begins(allow_insecure, verbose).verbose == verbose,
{
}

/// An accepted login is told of where `verbose` says so, with the name, the
/// platform and the version of the remote side.
pub proof fn accepted_login_is_told_of(
    m: LoginModel,
    hostname: Seq<char>,
    platform: Seq<char>,
    version: Seq<char>,
)
    ensures
        m.verbose ==> peer_info_text(m, hostname, platform, version) == Some(
            "[connected] hostname="@ + hostname + " platform="@ + platform + " version="@ + version,
        ),
        !m.verbose ==> peer_info_text(m, hostname, platform, version) is None,
{
}

/// What a login comes to: its stream where there is one, the error of the
/// connection where there is one, whatever else the login was told, and
/// otherwise a refusal with the reason to report.
pub proof fn what_a_login_comes_to<T, E>(
    m: LoginModel,
    stream: T,
    error: E,
    session: Result<T, SessionFailure<E>>,
)
    ensures
        comes_to(m, Ok::<Option<T>, E>(Some(stream)), session) ==> session == Ok::<
            T,
            SessionFailure<E>,
        >(stream),
        comes_to(m, Err::<Option<T>, E>(error), session) ==> session == Err::<T, SessionFailure<E>>(
            SessionFailure::Transport(error),
        ),
        comes_to(m, Ok::<Option<T>, E>(None), session) ==> (session matches Err(
            SessionFailure::Refused(reason),
        ) && reason@ == (match m.last_error {
            Some(last) => last,
            None => "соединение отклонено сервером"@,
        })),
{
}

/// What is read of an answer is what it holds.
pub proof fn answers_hold_what_was_read(line: String)
    ensures
        MsgboxAnswer::Continue@ is Continue,
        MsgboxAnswer::Reject@ is Reject,
        MsgboxAnswer::Show(line)@ == AnswerModel::Show(line@),
        MsgboxAnswer::Silent@ is Silent,
{
}

} // verus!
