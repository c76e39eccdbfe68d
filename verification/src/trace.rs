//! A terminal session from its first event on: what holds of every run.
use crate::terminal::{
    decompressed, input_actions, react, resize_actions, ActionModel, PeerModel, TerminalExit,
    TerminalModel,
};
use vstd::prelude::*;

verus! {

/// An event of a session.
pub enum Event {
    /// A message of the remote side.
    Peer(PeerModel),
    /// What the output that was to be decompressed came to.
    Decompressed(Seq<u8>),
    /// Local input.
    Input(Seq<u8>),
    /// A change of the local window.
    Resize(Option<(u32, u32)>),
}

/// Whether a session can be told of an event: it has not ended, local input and
/// changes of the window wait until the terminal is open, and behind compressed
/// output comes what it was decompressed to and nothing else.
pub open spec fn allowed(m: TerminalModel, event: Event) -> bool {
    &&& m.exit is None
    &&& event is Input || event is Resize ==> m.opened
    &&& event is Decompressed <==> m.awaiting
}

/// What follows from an event.
pub open spec fn advance(m: TerminalModel, event: Event) -> (TerminalModel, Seq<ActionModel>) {
    match event {
        Event::Peer(message) => react(m, message),
        Event::Decompressed(data) => decompressed(m, data),
        Event::Input(data) => (m, input_actions(data)),
        Event::Resize(size) => (m, resize_actions(size)),
    }
}

/// A session that has just connected.
pub open spec fn starts(m: TerminalModel) -> bool {
    !m.opened && !m.awaiting && m.exit is None
}

/// A run of a session from `m` on: what it knows in the end, and all that it
/// did, in order.
pub open spec fn play(m: TerminalModel, events: Seq<Event>) -> (TerminalModel, Seq<ActionModel>)
    decreases events.len(),
{
    if events.len() == 0 {
        (m, seq![])
    } else {
        let (now, done) = play(m, events.drop_last());
        let (next, actions) = advance(now, events.last());
        (next, done + actions)
    }
}

/// Whether a session could be told of each of the events in turn.
pub open spec fn playable(m: TerminalModel, events: Seq<Event>) -> bool
    decreases events.len(),
{
    events.len() == 0 || (playable(m, events.drop_last()) && allowed(
        play(m, events.drop_last()).0,
        events.last(),
    ))
}

// ---- the local terminal ----

/// The local terminal: whether it is in raw mode, and whether a guard is held
/// that restores it.
pub struct LocalTerminal {
    pub raw: bool,
    pub guarded: bool,
}

/// What an action does to the local terminal.
pub open spec fn affect(t: LocalTerminal, action: ActionModel) -> LocalTerminal {
    match action {
        ActionModel::EnterRaw => LocalTerminal { raw: true, ..t },
        ActionModel::HoldGuard => LocalTerminal { raw: t.raw && !t.guarded, guarded: true },
        _ => t,
    }
}

/// The local terminal after some actions.
pub open spec fn affect_all(t: LocalTerminal, actions: Seq<ActionModel>) -> LocalTerminal
    decreases actions.len(),
{
    if actions.len() == 0 {
        t
    } else {
        affect(affect_all(t, actions.drop_last()), actions.last())
    }
}

/// The local terminal once the guard, if one is held, is dropped.
pub open spec fn left(t: LocalTerminal) -> LocalTerminal {
    LocalTerminal { raw: t.raw && !t.guarded, guarded: false }
}

proof fn lemma_affect_all_add(t: LocalTerminal, a: Seq<ActionModel>, b: Seq<ActionModel>)
    ensures
        affect_all(t, a + b) == affect_all(affect_all(t, a), b),
    decreases b.len(),
{
    if b.len() == 0 {
        assert(a + b == a);
    } else {
        assert((a + b).drop_last() == a + b.drop_last());
        lemma_affect_all_add(t, a, b.drop_last());
    }
}

proof fn lemma_advance_affects(m: TerminalModel, event: Event, t: LocalTerminal, n: int)
    requires
        t.raw ==> t.guarded,
        0 <= n <= advance(m, event).1.len(),
        n > 0 ==> !(advance(m, event).1[n - 1] is EnterRaw),
    ensures
        affect_all(t, advance(m, event).1.take(n)).raw ==> affect_all(
            t,
            advance(m, event).1.take(n),
        ).guarded,
{
    let actions = advance(m, event).1.take(n);
    assert(actions.len() <= 4);
    reveal_with_fuel(affect_all, 5);
    if actions.len() >= 1 {
        assert(actions.drop_last().len() == actions.len() - 1);
    }
}

proof fn lemma_raw_is_guarded(m: TerminalModel, events: Seq<Event>, n: int)
    requires
        0 <= n <= play(m, events).1.len(),
        n > 0 ==> !(play(m, events).1[n - 1] is EnterRaw),
    ensures
        ({
            let cooked = LocalTerminal { raw: false, guarded: false };
            let t = affect_all(cooked, play(m, events).1.take(n));
            t.raw ==> t.guarded
        }),
    decreases events.len(),
{
    let cooked = LocalTerminal { raw: false, guarded: false };
    if events.len() > 0 {
        let before = events.drop_last();
        let (now, done) = play(m, before);
        let actions = advance(now, events.last()).1;
        let all = done + actions;
        if n <= done.len() {
            assert(all.take(n) == done.take(n));
            if n > 0 {
                assert(all[n - 1] == done[n - 1]);
            }
            lemma_raw_is_guarded(m, before, n);
        } else {
            let k = n - done.len();
            assert(all.take(n) == done + actions.take(k));
            assert(done.take(done.len() as int) == done);
            lemma_step_ends_guarded(m, before);
            lemma_affect_all_add(cooked, done, actions.take(k));
            assert(all[n - 1] == actions[k - 1]);
            lemma_advance_affects(now, events.last(), affect_all(cooked, done), k);
        }
    }
}

proof fn lemma_step_ends_guarded(m: TerminalModel, events: Seq<Event>)
    ensures
        ({
            let cooked = LocalTerminal { raw: false, guarded: false };
            let t = affect_all(cooked, play(m, events).1);
            t.raw ==> t.guarded
        }),
    decreases events.len(),
{
    let cooked = LocalTerminal { raw: false, guarded: false };
    if events.len() > 0 {
        let before = events.drop_last();
        lemma_step_ends_guarded(m, before);
        let (now, done) = play(m, before);
        let actions = advance(now, events.last()).1;
        lemma_affect_all_add(cooked, done, actions);
        assert(actions.take(actions.len() as int) == actions);
        lemma_advance_affects(now, events.last(), affect_all(cooked, done), actions.len() as int);
    }
}

/// However a session is left, after its last action or because one of them
/// failed, the guard that is then dropped takes the local terminal out of raw
/// mode again. The only action with nothing to hold yet is that of entering raw
/// mode itself, behind which the guard comes at once.
pub proof fn local_terminal_is_restored(m: TerminalModel, events: Seq<Event>, done: int)
    requires
        0 <= done <= play(m, events).1.len(),
        done > 0 ==> !(play(m, events).1[done - 1] is EnterRaw),
    ensures
        ({
            let cooked = LocalTerminal { raw: false, guarded: false };
            !left(affect_all(cooked, play(m, events).1.take(done))).raw
        }),
{
    lemma_raw_is_guarded(m, events, done);
}

/// Entering raw mode is followed by the guard, with nothing between.
pub proof fn raw_mode_is_guarded_at_once(m: TerminalModel, events: Seq<Event>, i: int)
    requires
        0 <= i < play(m, events).1.len(),
        play(m, events).1[i] is EnterRaw,
    ensures
        i + 1 < play(m, events).1.len(),
        play(m, events).1[i + 1] is HoldGuard,
    decreases events.len(),
{
    let before = events.drop_last();
    let (now, done) = play(m, before);
    let actions = advance(now, events.last()).1;
    let all = done + actions;
    if i < done.len() {
        assert(all[i] == done[i]);
        raw_mode_is_guarded_at_once(m, before, i);
        assert(all[i + 1] == done[i + 1]);
    } else {
        assert(all[i] == actions[i - done.len()]);
        assert(all[i + 1] == actions[i + 1 - done.len()]);
    }
}

// ---- what is sent and shown ----

pub open spec fn is_send(action: ActionModel) -> bool {
    action is SendData || action is SendResize
}

/// Whether an event tells that a terminal was opened.
pub open spec fn tells_opened(event: Event) -> bool {
    event matches Event::Peer(PeerModel::Opened { success, .. }) && success
}

/// Whether an event is compressed output of the terminal.
pub open spec fn is_compressed(event: Event) -> bool {
    event matches Event::Peer(PeerModel::Data { compressed, .. }) && compressed
}

proof fn lemma_session_after(m: TerminalModel, events: Seq<Event>)
    requires
        starts(m),
        playable(m, events),
    ensures
        play(m, events).0.check_only == m.check_only,
        play(m, events).0.admin == m.admin,
        play(m, events).0.opened == (!m.check_only && exists|k: int|
            0 <= k < events.len() && tells_opened(#[trigger] events[k])),
        play(m, events).0.awaiting == (!m.check_only && events.len() > 0 && is_compressed(
            events.last(),
        )),
    decreases events.len(),
{
    if events.len() > 0 {
        let before = events.drop_last();
        lemma_session_after(m, before);
        assert forall|k: int| 0 <= k < before.len() implies before[k] == #[trigger] events[k] by {}
        if play(m, events).0.opened && !play(m, before).0.opened {
            assert(tells_opened(events[events.len() - 1]));
        }
    }
}

/// Nothing typed and no window size is sent before the remote side has told
/// that a terminal is open.
pub proof fn nothing_is_sent_before_the_terminal_is_open(m: TerminalModel, events: Seq<Event>)
    requires
        starts(m),
        playable(m, events),
        forall|k: int| 0 <= k < events.len() ==> !tells_opened(#[trigger] events[k]),
    ensures
        forall|i: int| 0 <= i < play(m, events).1.len() ==> !is_send(#[trigger] play(m, events).1[i]),
    decreases events.len(),
{
    if events.len() > 0 {
        let before = events.drop_last();
        assert forall|k: int| 0 <= k < before.len() implies !tells_opened(#[trigger] before[k]) by {
            assert(!tells_opened(events[k]));
        }
        nothing_is_sent_before_the_terminal_is_open(m, before);
        lemma_session_after(m, before);
    }
}

/// The bytes that the actions send, in order.
pub open spec fn sent(actions: Seq<ActionModel>) -> Seq<u8>
    decreases actions.len(),
{
    if actions.len() == 0 {
        seq![]
    } else {
        sent(actions.drop_last()) + (match actions.last() {
            ActionModel::SendData { data, .. } => data,
            _ => seq![],
        })
    }
}

/// The bytes that the actions show, in order.
pub open spec fn shown(actions: Seq<ActionModel>) -> Seq<u8>
    decreases actions.len(),
{
    if actions.len() == 0 {
        seq![]
    } else {
        shown(actions.drop_last()) + (match actions.last() {
            ActionModel::Output(data) => data,
            _ => seq![],
        })
    }
}

/// The bytes typed in the events, in order.
pub open spec fn typed(events: Seq<Event>) -> Seq<u8>
    decreases events.len(),
{
    if events.len() == 0 {
        seq![]
    } else {
        typed(events.drop_last()) + (match events.last() {
            Event::Input(data) => data,
            _ => seq![],
        })
    }
}

/// The output of the terminal in the messages, in order, with `inflate` for
/// decompression.
pub open spec fn output(
    inflate: spec_fn(Seq<u8>) -> Seq<u8>,
    events: Seq<Event>,
) -> Seq<u8>
    decreases events.len(),
{
    if events.len() == 0 {
        seq![]
    } else {
        output(inflate, events.drop_last()) + (match events.last() {
            Event::Peer(PeerModel::Data { compressed, data }) => if compressed {
                inflate(data)
            } else {
                data
            },
            _ => seq![],
        })
    }
}

/// Whether what the session is told was decompressed is what `inflate` makes of
/// the compressed output right before it.
pub open spec fn decompresses(
    inflate: spec_fn(Seq<u8>) -> Seq<u8>,
    events: Seq<Event>,
) -> bool {
    forall|k: int|
        0 < k < events.len() && #[trigger] events[k] is Decompressed && is_compressed(events[k - 1])
            ==> events[k] == Event::Decompressed(inflate(events[k - 1]->Peer_0->Data_data))
}

proof fn lemma_sent_add(a: Seq<ActionModel>, b: Seq<ActionModel>)
    ensures
        sent(a + b) == sent(a) + sent(b),
        shown(a + b) == shown(a) + shown(b),
    decreases b.len(),
{
    if b.len() == 0 {
        assert(a + b == a);
        assert(sent(a) + sent(b) == sent(a));
        assert(shown(a) + shown(b) == shown(a));
    } else {
        assert((a + b).drop_last() == a + b.drop_last());
        lemma_sent_add(a, b.drop_last());
        assert(sent(a + b) == sent(a) + sent(b));
        assert(shown(a + b) == shown(a) + shown(b));
    }
}

proof fn lemma_advance_sends(m: TerminalModel, event: Event)
    ensures
        sent(advance(m, event).1) == (match event {
            Event::Input(data) => data,
            _ => seq![],
        }),
        !m.check_only ==> shown(advance(m, event).1) == (match event {
            Event::Peer(PeerModel::Data { compressed, data }) => if compressed {
                seq![]
            } else {
                data
            },
            Event::Decompressed(data) => data,
            _ => seq![],
        }),
{
    let actions = advance(m, event).1;
    reveal_with_fuel(sent, 5);
    reveal_with_fuel(shown, 5);
    assert(actions.len() <= 4);
    let none = Seq::<u8>::empty();
    match event {
        Event::Input(data) => {
            assert(sent(actions) == data);
            assert(shown(actions) == none);
        },
        Event::Decompressed(data) => {
            assert(sent(actions) == none);
            assert(shown(actions) == data);
        },
        Event::Peer(PeerModel::Data { compressed, data }) => {
            assert(sent(actions) == none);
            if !m.check_only {
                assert(shown(actions) == if compressed {
                    none
                } else {
                    data
                });
            }
        },
        _ => {
            assert(sent(actions) == none);
            assert(shown(actions) == none);
        },
    }
}

/// What is typed is sent unchanged, and nothing else is sent. Each message with
/// output of the terminal is shown, decompressed where it was compressed, and
/// nothing else is shown. Both go in the order in which they came; only a last
/// message that is just being decompressed is not shown yet.
pub proof fn bytes_pass_unchanged(
    m: TerminalModel,
    events: Seq<Event>,
    inflate: spec_fn(Seq<u8>) -> Seq<u8>,
)
    requires
        starts(m),
        !m.check_only,
        playable(m, events),
        decompresses(inflate, events),
    ensures
        sent(play(m, events).1) == typed(events),
        shown(play(m, events).1) == output(
            inflate,
            if play(m, events).0.awaiting {
                events.drop_last()
            } else {
                events
            },
        ),
    decreases events.len(),
{
    if events.len() > 0 {
        let before = events.drop_last();
        let last = events.last();
        assert forall|k: int|
            0 < k < before.len() && #[trigger] before[k] is Decompressed && is_compressed(
                before[k - 1],
            ) implies before[k] == Event::Decompressed(
            inflate(before[k - 1]->Peer_0->Data_data),
        ) by {
            assert(events[k] == before[k] && events[k - 1] == before[k - 1]);
        }
        bytes_pass_unchanged(m, before, inflate);
        lemma_session_after(m, before);
        lemma_session_after(m, events);
        let (now, done) = play(m, before);
        let actions = advance(now, last).1;
        lemma_sent_add(done, actions);
        lemma_advance_sends(now, last);
        assert(sent(done + actions) == typed(events));
        let none = Seq::<u8>::empty();
        if last is Decompressed {
            let k = events.len() - 1;
            assert(events[k] == last);
            assert(events[k - 1] == before.last());
            let data = before.last()->Peer_0->Data_data;
            assert(last == Event::Decompressed(inflate(data)));
            assert(output(inflate, before) == output(inflate, before.drop_last()) + inflate(data));
            assert(output(inflate, events) == output(inflate, before) + none);
            assert(output(inflate, before) + none == output(inflate, before));
        } else if is_compressed(last) {
            assert(shown(done) + none == shown(done));
        } else {
            assert(shown(done + actions) == output(inflate, events));
        }
    }
}

/// Compressed output keeps its place: the next that the session is told is what
/// it was decompressed to, and it is told so of nothing else.
pub proof fn compressed_output_is_answered_at_once(m: TerminalModel, events: Seq<Event>, k: int)
    requires
        starts(m),
        !m.check_only,
        playable(m, events),
        0 <= k < events.len(),
    ensures
        is_compressed(events[k]) && k + 1 < events.len() ==> events[k + 1] is Decompressed,
        events[k] is Decompressed ==> k > 0 && is_compressed(events[k - 1]),
    decreases events.len(),
{
    let before = events.drop_last();
    if k + 1 < events.len() {
        compressed_output_is_answered_at_once(m, before, k);
        assert(events[k] == before[k]);
        if k > 0 {
            assert(events[k - 1] == before[k - 1]);
        }
        if k + 2 < events.len() {
            assert(events[k + 1] == before[k + 1]);
        } else {
            lemma_session_after(m, before);
            assert(before.last() == events[k]);
            assert(events.last() == events[k + 1]);
        }
    } else {
        lemma_session_after(m, before);
        assert(events.last() == events[k]);
        if before.len() > 0 {
            assert(before.last() == events[k - 1]);
        }
    }
}

// ---- the end ----

/// A session that has ended finished with its last action; one that has not
/// ended has not finished.
pub proof fn finishing_is_the_last_action(m: TerminalModel, events: Seq<Event>)
    requires
        starts(m),
        playable(m, events),
    ensures
        ({
            let (end, actions) = play(m, events);
            &&& forall|i: int|
                0 <= i < actions.len() - 1 ==> !(#[trigger] actions[i] is Finish)
            &&& match end.exit {
                Some(exit) => actions.len() > 0 && actions.last() == ActionModel::Finish(exit),
                None => actions.len() > 0 ==> !(actions.last() is Finish),
            }
        }),
    decreases events.len(),
{
    if events.len() > 0 {
        let before = events.drop_last();
        finishing_is_the_last_action(m, before);
        let (now, done) = play(m, before);
        let (end, actions) = advance(now, events.last());
        let all = done + actions;
        assert forall|i: int| 0 <= i < all.len() - 1 implies !(#[trigger] all[i] is Finish) by {
            if i < done.len() - 1 {
                assert(!(done[i] is Finish));
            } else if i == done.len() - 1 {
                assert(done.last() == done[i]);
            } else {
                assert(all[i] == actions[i - done.len()]);
            }
        }
        if actions.len() == 0 {
            assert(all == done);
        } else {
            assert(all.last() == actions.last());
        }
    }
}

/// The events that end a session: a refused login, a terminal that could not
/// be opened or was closed, the end of the connection, and, where only the
/// password is checked, an accepted login. Where it is, answers of a terminal
/// end nothing.
pub proof fn what_ends_a_session(m: TerminalModel, event: Event)
    requires
        allowed(m, event),
    ensures
        advance(m, event).0.exit is Some <==> (match event {
            Event::Peer(PeerModel::LoginError(_)) => true,
            Event::Peer(PeerModel::Broken(_)) => true,
            Event::Peer(PeerModel::Ended) => true,
            Event::Peer(PeerModel::LoggedIn { .. }) => m.check_only,
            Event::Peer(PeerModel::Closed { .. }) => !m.check_only,
            Event::Peer(PeerModel::Opened { success, .. }) => !success && !m.check_only,
            _ => false,
        }),
{
}

// ---- checking the password ----

/// A session that only checks the password never asks for a terminal, sends or
/// shows nothing, and leaves the local terminal alone.
pub proof fn check_opens_no_terminal(m: TerminalModel, events: Seq<Event>)
    requires
        starts(m),
        m.check_only,
        playable(m, events),
    ensures
        forall|i: int|
            0 <= i < play(m, events).1.len() ==> ({
                let action = #[trigger] play(m, events).1[i];
                !(action is SendOpen) && !is_send(action) && !(action is Output) && !(
                action is Decompress) && !(action is EnterRaw) && !(action is HoldGuard)
            }),
    decreases events.len(),
{
    if events.len() > 0 {
        let before = events.drop_last();
        check_opens_no_terminal(m, before);
        lemma_session_after(m, before);
    }
}

/// A session that only checks the password succeeds exactly where the login
/// was accepted, and says so exactly then; every other end is a failure.
pub proof fn check_tells_whether_the_login_was_accepted(m: TerminalModel, events: Seq<Event>)
    requires
        starts(m),
        m.check_only,
        playable(m, events),
    ensures
        ({
            let (end, actions) = play(m, events);
            let accepted = exists|k: int|
                0 <= k < events.len() && #[trigger] events[k] matches Event::Peer(
                    PeerModel::LoggedIn { .. },
                );
            let said = exists|i: int|
                0 <= i < actions.len() && #[trigger] actions[i] == ActionModel::Say("AUTH_OK"@);
            &&& end.exit == Some(TerminalExit::Done) <==> accepted
            &&& said <==> accepted
            &&& end.exit is Some && !accepted ==> end.exit == Some(TerminalExit::CheckFailed)
        }),
    decreases events.len(),
{
    if events.len() > 0 {
        let before = events.drop_last();
        let last = events.last();
        check_tells_whether_the_login_was_accepted(m, before);
        lemma_session_after(m, before);
        let (now, done) = play(m, before);
        let (end, actions) = advance(now, last);
        let all = done + actions;
        assert forall|k: int| 0 <= k < before.len() implies before[k] == #[trigger] events[k] by {}
        assert(events[events.len() - 1] == last);
        if last matches Event::Peer(PeerModel::LoggedIn { .. }) {
            assert(actions[1] == ActionModel::Say("AUTH_OK"@));
            assert(all[done.len() as int + 1] == ActionModel::Say("AUTH_OK"@));
        } else {
            assert forall|i: int| 0 <= i < actions.len() implies #[trigger] actions[i]
                != ActionModel::Say("AUTH_OK"@) by {}
            assert forall|i: int| 0 <= i < all.len() && #[trigger] all[i] == ActionModel::Say(
                "AUTH_OK"@,
            ) implies i < done.len() && done[i] == all[i] by {
                if i >= done.len() {
                    assert(all[i] == actions[i - done.len()]);
                }
            }
        }
    }
}

/// An account of the remote side is handed over only where one was given, only
/// that one, and only behind an answered challenge.
pub proof fn account_is_sent_only_behind_a_challenge(m: TerminalModel, events: Seq<Event>)
    requires
        starts(m),
        playable(m, events),
    ensures
        ({
            let actions = play(m, events).1;
            forall|i: int|
                0 <= i < actions.len() ==> (#[trigger] actions[i] matches ActionModel::AdminLogin {
                    os_username,
                    os_password,
                    password,
                    remember,
                } ==> m.admin == Some((os_username, os_password)) && password == ""@ && !remember
                    && i > 0 && actions[i - 1] is AnswerHash)
        }),
    decreases events.len(),
{
    if events.len() > 0 {
        let before = events.drop_last();
        account_is_sent_only_behind_a_challenge(m, before);
        lemma_session_after(m, before);
        let (now, done) = play(m, before);
        let actions = advance(now, events.last()).1;
        let all = done + actions;
        assert forall|i: int|
            0 <= i < all.len() && #[trigger] all[i] is AdminLogin implies all[i]->os_username
            == (m.admin->0).0 && m.admin is Some && all[i]->os_password == (m.admin->0).1
            && all[i]->AdminLogin_password == ""@ && !all[i]->remember && i > 0
            && all[i - 1] is AnswerHash by {
            if i < done.len() {
                assert(done[i] == all[i]);
                assert(done[i - 1] == all[i - 1]);
            } else {
                assert(all[i] == actions[i - done.len()]);
                assert(all[i - 1] == actions[i - 1 - done.len()]);
            }
        }
    }
}

// ---- the terminal that is spoken to ----

/// The terminal that an action names, if it names one.
pub open spec fn terminal_of(action: ActionModel) -> Option<i32> {
    match action {
        ActionModel::SendOpen { terminal_id, .. } => Some(terminal_id),
        ActionModel::SendData { terminal_id, .. } => Some(terminal_id),
        ActionModel::SendResize { terminal_id, .. } => Some(terminal_id),
        _ => None,
    }
}

/// In every run there is one terminal only, number 0: what is typed and the size
/// of the window go to the terminal that was asked for, and no other.
pub proof fn one_terminal_is_spoken_to(m: TerminalModel, events: Seq<Event>)
    ensures
        forall|i: int|
            0 <= i < play(m, events).1.len() ==> (terminal_of(#[trigger] play(m, events).1[i])
                matches Some(id) ==> id == 0),
    decreases events.len(),
{
    if events.len() > 0 {
        let before = events.drop_last();
        one_terminal_is_spoken_to(m, before);
        let (now, done) = play(m, before);
        let actions = advance(now, events.last()).1;
        let all = done + actions;
        assert forall|i: int| 0 <= i < all.len() implies (terminal_of(#[trigger] all[i]) matches Some(
            id,
        ) ==> id == 0) by {
            if i < done.len() {
                assert(all[i] == done[i]);
            } else {
                assert(all[i] == actions[i - done.len()]);
            }
        }
    }
}

/// The sizes that the actions send, in order: first that of a terminal that is
/// asked for, and then those of the window.
pub open spec fn sizes_sent(actions: Seq<ActionModel>) -> Seq<(u32, u32)>
    decreases actions.len(),
{
    if actions.len() == 0 {
        seq![]
    } else {
        sizes_sent(actions.drop_last()) + (match actions.last() {
            ActionModel::SendOpen { rows, cols, .. } => seq![(rows, cols)],
            ActionModel::SendResize { rows, cols, .. } => seq![(rows, cols)],
            _ => seq![],
        })
    }
}

/// The sizes in the events, in order: `size` at each accepted login, and each new
/// size of the window that could be found out.
pub open spec fn sizes_told(size: (u32, u32), events: Seq<Event>) -> Seq<(u32, u32)>
    decreases events.len(),
{
    if events.len() == 0 {
        seq![]
    } else {
        sizes_told(size, events.drop_last()) + (match events.last() {
            Event::Peer(PeerModel::LoggedIn { .. }) => seq![size],
            Event::Resize(Some(new)) => seq![new],
            _ => seq![],
        })
    }
}

/// The bytes that the actions log in a direction, in order.
pub open spec fn logged(direction: Seq<char>, actions: Seq<ActionModel>) -> Seq<u8>
    decreases actions.len(),
{
    if actions.len() == 0 {
        seq![]
    } else {
        logged(direction, actions.drop_last()) + (match actions.last() {
            ActionModel::Dump { direction: d, data } => if d == direction {
                data
            } else {
                seq![]
            },
            _ => seq![],
        })
    }
}

proof fn lemma_sizes_add(a: Seq<ActionModel>, b: Seq<ActionModel>, direction: Seq<char>)
    ensures
        sizes_sent(a + b) == sizes_sent(a) + sizes_sent(b),
        logged(direction, a + b) == logged(direction, a) + logged(direction, b),
    decreases b.len(),
{
    if b.len() == 0 {
        assert(a + b == a);
        assert(sizes_sent(a) + sizes_sent(b) == sizes_sent(a));
        assert(logged(direction, a) + logged(direction, b) == logged(direction, a));
    } else {
        assert((a + b).drop_last() == a + b.drop_last());
        lemma_sizes_add(a, b.drop_last(), direction);
        assert(sizes_sent(a + b) == sizes_sent(a) + sizes_sent(b));
        assert(logged(direction, a + b) == logged(direction, a) + logged(direction, b));
    }
}

proof fn lemma_directions()
    ensures
        "IN"@ != "OUT"@,
{
    reveal_strlit("IN");
    reveal_strlit("OUT");
    assert("IN"@.len() == 2);
    assert("OUT"@.len() == 3);
}

proof fn lemma_advance_sizes(m: TerminalModel, event: Event)
    requires
        !m.check_only,
    ensures
        sizes_sent(advance(m, event).1) == (match event {
            Event::Peer(PeerModel::LoggedIn { .. }) => seq![(m.rows, m.cols)],
            Event::Resize(Some(new)) => seq![new],
            _ => seq![],
        }),
        logged("IN"@, advance(m, event).1) == shown(advance(m, event).1),
        logged("OUT"@, advance(m, event).1) == sent(advance(m, event).1),
        advance(m, event).0.rows == m.rows,
        advance(m, event).0.cols == m.cols,
        !advance(m, event).0.check_only,
{
    lemma_directions();
    let actions = advance(m, event).1;
    reveal_with_fuel(sizes_sent, 5);
    reveal_with_fuel(logged, 5);
    reveal_with_fuel(sent, 5);
    reveal_with_fuel(shown, 5);
    assert(actions.len() <= 4);
    let none = Seq::<(u32, u32)>::empty();
    match event {
        Event::Peer(PeerModel::LoggedIn { .. }) => {
            assert(sizes_sent(actions) == seq![(m.rows, m.cols)]);
        },
        Event::Resize(Some(new)) => {
            assert(sizes_sent(actions) == seq![new]);
        },
        _ => {
            assert(sizes_sent(actions) == none);
        },
    }
    assert(logged("IN"@, actions) == shown(actions));
    assert(logged("OUT"@, actions) == sent(actions));
}

/// The sizes that the remote side is sent are that of the session, once for each
/// accepted login, and each new size of the window, in order and unchanged. The
/// log holds what was shown as what came in, and what was sent as what went out.
pub proof fn sizes_and_log_follow_the_events(m: TerminalModel, events: Seq<Event>)
    requires
        !m.check_only,
    ensures
        sizes_sent(play(m, events).1) == sizes_told((m.rows, m.cols), events),
        logged("IN"@, play(m, events).1) == shown(play(m, events).1),
        logged("OUT"@, play(m, events).1) == sent(play(m, events).1),
        play(m, events).0.rows == m.rows,
        play(m, events).0.cols == m.cols,
        !play(m, events).0.check_only,
    decreases events.len(),
{
    if events.len() > 0 {
        let before = events.drop_last();
        sizes_and_log_follow_the_events(m, before);
        let (now, done) = play(m, before);
        let actions = advance(now, events.last()).1;
        lemma_sizes_add(done, actions, "IN"@);
        lemma_sizes_add(done, actions, "OUT"@);
        lemma_sent_add(done, actions);
        lemma_advance_sizes(now, events.last());
    }
}

} // verus!
