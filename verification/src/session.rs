//! The rules of one session: what it does on each thing that happens to it.
//!
//! A session waits for its handshake, is then authenticated, and at last
//! closed. Whoever runs a session hands it the events (a line from the
//! client, a watchdog tick, a delivery from another session, the end of the
//! stream) and carries out, in order, the actions that come back. When
//! sending a line fails, the remaining actions of that step are left out and
//! the session is told of it with `Event::WriteError`.
//!
//! `next` is the whole transition table; `decide` computes it, and the
//! lemmas state what holds of every step and of every run.

use vstd::prelude::*;
use crate::clients::{client_login_is_valid, login_verdict, Client};
use crate::message::{
    error_code, parse, parse_message, Message, MessageErrorKind, MessageType, ParserError,
};

verus! {

/// The period of the watchdog, in seconds. A session that sends no `PING`
/// from one tick to the next is closed.
pub const AFK_TIMEOUT_SECS: u64 = 30;

/// Why a session is over.
#[derive(Debug, PartialEq, Eq, Clone, Copy, Structural)]
pub enum Ending {
    /// The client asked to disconnect.
    Finished,
    /// The login was not accepted.
    Refused,
    /// The client broke the protocol.
    Rejected,
    /// No `PING` came between two watchdog ticks.
    TimedOut,
    /// The stream ended.
    UnexpectedEof,
    /// Reading from the client failed.
    ReadFailed,
    /// Writing to the client failed.
    WriteFailed,
}

/// The state of a session.
#[derive(Debug, PartialEq)]
pub enum Session {
    /// No line has been read yet.
    AwaitingHandshake,
    /// The client has logged in and the session is in the presence table.
    Authenticated { identity: String, session_id: u128, was_pinged: bool },
    /// The session is over.
    Closed(Ending),
}

/// What can happen to a session.
#[derive(Debug, PartialEq)]
pub enum Event {
    /// A line was read from the client.
    Line(String),
    /// The client's stream ended.
    Eof,
    /// Reading from the client failed.
    ReadError,
    /// Writing a line to the client failed.
    WriteError,
    /// The watchdog ticked.
    Tick,
    /// Another session delivered a message.
    Delivery(MessageType),
}

/// What is to be done for a session.
#[derive(Debug, PartialEq)]
pub enum Action {
    /// Write the line of the message to the client.
    Send(MessageType),
    /// Shut down the writing side of the stream.
    Close,
    /// Enter the session into the presence table, with a delivery channel.
    Attach { identity: String, session_id: u128 },
    /// Take the session out of the presence table.
    Detach { identity: String, session_id: u128 },
    /// Hand the message to every session of the target.
    Route { target: String, message: MessageType },
    /// Look the partner up in the presence table and send the answer.
    AnswerPresence { partner: String },
}

/// The mathematical value of a `Session`.
pub enum SessionView {
    AwaitingHandshake,
    Authenticated { identity: Seq<char>, session_id: u128, was_pinged: bool },
    Closed(Ending),
}

/// The mathematical value of an `Event`.
pub enum EventView {
    Line(Seq<char>),
    Eof,
    ReadError,
    WriteError,
    Tick,
    Delivery(Message),
}

/// The mathematical value of an `Action`.
pub enum ActionView {
    Send(Message),
    Close,
    Attach { identity: Seq<char>, session_id: u128 },
    Detach { identity: Seq<char>, session_id: u128 },
    Route { target: Seq<char>, message: Message },
    AnswerPresence { partner: Seq<char> },
}

impl View for Session {
    type V = SessionView;

    open spec fn view(&self) -> SessionView {
        match self {
            Session::AwaitingHandshake => SessionView::AwaitingHandshake,
            Session::Authenticated { identity, session_id, was_pinged } => {
                SessionView::Authenticated {
                    identity: identity@,
                    session_id: *session_id,
                    was_pinged: *was_pinged,
                }
            },
            Session::Closed(ending) => SessionView::Closed(*ending),
        }
    }
}

impl View for Event {
    type V = EventView;

    open spec fn view(&self) -> EventView {
        match self {
            Event::Line(line) => EventView::Line(line@),
            Event::Eof => EventView::Eof,
            Event::ReadError => EventView::ReadError,
            Event::WriteError => EventView::WriteError,
            Event::Tick => EventView::Tick,
            Event::Delivery(message) => EventView::Delivery(message@),
        }
    }
}

impl View for Action {
    type V = ActionView;

    open spec fn view(&self) -> ActionView {
        match self {
            Action::Send(message) => ActionView::Send(message@),
            Action::Close => ActionView::Close,
            Action::Attach { identity, session_id } => ActionView::Attach {
                identity: identity@,
                session_id: *session_id,
            },
            Action::Detach { identity, session_id } => ActionView::Detach {
                identity: identity@,
                session_id: *session_id,
            },
            Action::Route { target, message } => ActionView::Route {
                target: target@,
                message: message@,
            },
            Action::AnswerPresence { partner } => ActionView::AnswerPresence { partner: partner@ },
        }
    }
}

/// The views of a list of actions.
pub open spec fn effects(actions: Seq<Action>) -> Seq<ActionView> {
    actions.map_values(|a: Action| a@)
}

/// The first line of a session decides whether there is a session: a
/// `CONNECT` that the records accept is greeted with `HEY` and attached
/// under the id `fresh`; a `CONNECT` that they do not accept is answered
/// with `NO`; anything else is a protocol error.
pub open spec fn greet(parsed: Result<Message, ParserError>, clients: Seq<Client>, fresh: u128) -> (
    SessionView,
    Seq<ActionView>,
) {
    match parsed {
        Ok(Message::Connect(key, password)) => {
            if login_verdict(clients, key, password) == Ok::<bool, ()>(true) {
                (
                    SessionView::Authenticated {
                        identity: key,
                        session_id: fresh,
                        was_pinged: true,
                    },
                    seq![
                        ActionView::Send(Message::Hey),
                        ActionView::Attach { identity: key, session_id: fresh },
                    ],
                )
            } else {
                (
                    SessionView::Closed(Ending::Refused),
                    seq![ActionView::Send(Message::No), ActionView::Close],
                )
            }
        },
        Ok(_) => (
            SessionView::Closed(Ending::Rejected),
            seq![
                ActionView::Send(Message::Error(MessageErrorKind::ProtocolMismatch)),
                ActionView::Close,
            ],
        ),
        Err(err) => (
            SessionView::Closed(Ending::Rejected),
            seq![ActionView::Send(Message::Error(error_code(err))), ActionView::Close],
        ),
    }
}

/// What an authenticated session does on a line of its client.
pub open spec fn serve(
    identity: Seq<char>,
    session_id: u128,
    was_pinged: bool,
    parsed: Result<Message, ParserError>,
) -> (SessionView, Seq<ActionView>) {
    let same = SessionView::Authenticated { identity, session_id, was_pinged };
    let detach = ActionView::Detach { identity, session_id };
    match parsed {
        Ok(Message::Disconnect) => (
            SessionView::Closed(Ending::Finished),
            seq![detach, ActionView::Send(Message::Bye), ActionView::Close],
        ),
        Ok(Message::Ping) => (
            SessionView::Authenticated { identity, session_id, was_pinged: true },
            seq![ActionView::Send(Message::Pong)],
        ),
        Ok(Message::Boop(partner)) => (
            same,
            seq![ActionView::Route { target: partner, message: Message::Boop(identity) }],
        ),
        Ok(Message::Ayt(partner)) => (same, seq![ActionView::AnswerPresence { partner }]),
        Ok(_) => (
            SessionView::Closed(Ending::Rejected),
            seq![
                detach,
                ActionView::Send(Message::Error(MessageErrorKind::ProtocolMismatch)),
                ActionView::Close,
            ],
        ),
        Err(err) => (
            SessionView::Closed(Ending::Rejected),
            seq![detach, ActionView::Send(Message::Error(error_code(err))), ActionView::Close],
        ),
    }
}

/// The state after an event, and the actions that the event calls for.
/// `fresh` is the id that a session gets if this step logs it in.
pub open spec fn next(state: SessionView, event: EventView, clients: Seq<Client>, fresh: u128) -> (
    SessionView,
    Seq<ActionView>,
) {
    match state {
        SessionView::AwaitingHandshake => match event {
            EventView::Line(line) => greet(parse(line), clients, fresh),
            EventView::Eof => (
                SessionView::Closed(Ending::UnexpectedEof),
                Seq::<ActionView>::empty(),
            ),
            EventView::ReadError => (
                SessionView::Closed(Ending::ReadFailed),
                Seq::<ActionView>::empty(),
            ),
            EventView::WriteError => (
                SessionView::Closed(Ending::WriteFailed),
                Seq::<ActionView>::empty(),
            ),
            EventView::Tick => (state, Seq::<ActionView>::empty()),
            EventView::Delivery(_) => (state, Seq::<ActionView>::empty()),
        },
        SessionView::Authenticated { identity, session_id, was_pinged } => {
            let detach = ActionView::Detach { identity, session_id };
            match event {
                EventView::Line(line) => serve(identity, session_id, was_pinged, parse(line)),
                EventView::Eof => (SessionView::Closed(Ending::UnexpectedEof), seq![detach]),
                EventView::ReadError => (
                    SessionView::Closed(Ending::ReadFailed),
                    seq![detach, ActionView::Close],
                ),
                EventView::WriteError => (SessionView::Closed(Ending::WriteFailed), seq![detach]),
                EventView::Tick => if was_pinged {
                    (
                        SessionView::Authenticated { identity, session_id, was_pinged: false },
                        Seq::<ActionView>::empty(),
                    )
                } else {
                    (SessionView::Closed(Ending::TimedOut), seq![ActionView::Close, detach])
                },
                EventView::Delivery(message) => (state, seq![ActionView::Send(message)]),
            }
        },
        SessionView::Closed(_) => (state, Seq::<ActionView>::empty()),
    }
}

/// Calls `Uuid::new_v4` and takes the id as a number with `as_u128`. The id
/// is random; the contract states the version and variant bits that `uuid`
/// sets in every such id, and nothing else. `uuid` panics where the system
/// gives it no random bytes.
#[verifier::external_body]
fn fresh_session_id() -> (id: u128)
    ensures
        id & 0x0000_0000_0000_f000_c000_0000_0000_0000u128
            == 0x0000_0000_0000_4000_8000_0000_0000_0000u128,
{
    uuid::Uuid::new_v4().as_u128()
}

fn no_action() -> (actions: Vec<Action>)
    ensures
        effects(actions@) == Seq::<ActionView>::empty(),
{
    let actions: Vec<Action> = Vec::new();
    assert(effects(actions@) =~= Seq::<ActionView>::empty());
    actions
}

fn one_action(a: Action) -> (actions: Vec<Action>)
    ensures
        effects(actions@) == seq![a@],
{
    let mut actions: Vec<Action> = Vec::new();
    actions.push(a);
    assert(effects(actions@) =~= seq![a@]);
    actions
}

fn two_actions(a: Action, b: Action) -> (actions: Vec<Action>)
    ensures
        effects(actions@) == seq![a@, b@],
{
    let mut actions: Vec<Action> = Vec::new();
    actions.push(a);
    actions.push(b);
    assert(effects(actions@) =~= seq![a@, b@]);
    actions
}

fn three_actions(a: Action, b: Action, c: Action) -> (actions: Vec<Action>)
    ensures
        effects(actions@) == seq![a@, b@, c@],
{
    let mut actions: Vec<Action> = Vec::new();
    actions.push(a);
    actions.push(b);
    actions.push(c);
    assert(effects(actions@) =~= seq![a@, b@, c@]);
    actions
}

/// The handshake on the first line.
fn handshake(line: &String, clients: &Vec<Client>, fresh: u128) -> (step: (Session, Vec<Action>))
    ensures
        (step.0@, effects(step.1@)) == greet(parse(line@), clients@, fresh),
{
    match parse_message(line) {
        Ok(MessageType::CONNECT(key, password)) => {
            let verdict = client_login_is_valid(&key, &password, clients);
            let accepted = match verdict {
                Ok(valid) => valid,
                Err(_) => false,
            };
            if accepted {
                let attach = Action::Attach { identity: key.clone(), session_id: fresh };
                (
                    Session::Authenticated { identity: key, session_id: fresh, was_pinged: true },
                    two_actions(Action::Send(MessageType::HEY), attach),
                )
            } else {
                (
                    Session::Closed(Ending::Refused),
                    two_actions(Action::Send(MessageType::NO), Action::Close),
                )
            }
        },
        Ok(_) => (
            Session::Closed(Ending::Rejected),
            two_actions(
                Action::Send(MessageType::ERROR(MessageErrorKind::ProtocolMismatch)),
                Action::Close,
            ),
        ),
        Err(err) => (
            Session::Closed(Ending::Rejected),
            two_actions(Action::Send(MessageType::ERROR(MessageErrorKind::from(err))), Action::Close),
        ),
    }
}

/// A line of the client of an authenticated session.
fn serve_line(identity: String, session_id: u128, was_pinged: bool, line: &String) -> (step: (
    Session,
    Vec<Action>,
))
    ensures
        (step.0@, effects(step.1@)) == serve(identity@, session_id, was_pinged, parse(line@)),
{
    match parse_message(line) {
        Ok(MessageType::DISCONNECT) => (
            Session::Closed(Ending::Finished),
            three_actions(
                Action::Detach { identity, session_id },
                Action::Send(MessageType::BYE),
                Action::Close,
            ),
        ),
        Ok(MessageType::PING) => (
            Session::Authenticated { identity, session_id, was_pinged: true },
            one_action(Action::Send(MessageType::PONG)),
        ),
        Ok(MessageType::BOOP(partner)) => {
            let route = Action::Route {
                target: partner,
                message: MessageType::BOOP(identity.clone()),
            };
            (Session::Authenticated { identity, session_id, was_pinged }, one_action(route))
        },
        Ok(MessageType::AYT(partner)) => (
            Session::Authenticated { identity, session_id, was_pinged },
            one_action(Action::AnswerPresence { partner }),
        ),
        Ok(_) => (
            Session::Closed(Ending::Rejected),
            three_actions(
                Action::Detach { identity, session_id },
                Action::Send(MessageType::ERROR(MessageErrorKind::ProtocolMismatch)),
                Action::Close,
            ),
        ),
        Err(err) => (
            Session::Closed(Ending::Rejected),
            three_actions(
                Action::Detach { identity, session_id },
                Action::Send(MessageType::ERROR(MessageErrorKind::from(err))),
                Action::Close,
            ),
        ),
    }
}

impl Session {
    /// A session before its handshake.
    pub fn new() -> (session: Session)
        ensures
            session@ == SessionView::AwaitingHandshake,
    {
        Session::AwaitingHandshake
    }

    /// Whether the session is over.
    pub fn is_closed(&self) -> (closed: bool)
        ensures
            closed == (self@ is Closed),
    {
        match self {
            Session::Closed(_) => true,
            _ => false,
        }
    }

    /// The step that an event calls for, with the id that the session gets if
    /// this step logs it in. The actions are to be carried out in order.
    pub fn decide(self, event: Event, clients: &Vec<Client>, fresh: u128) -> (step: (
        Session,
        Vec<Action>,
    ))
        ensures
            (step.0@, effects(step.1@)) == next(self@, event@, clients@, fresh),
    {
        match self {
            Session::AwaitingHandshake => match event {
                Event::Line(line) => handshake(&line, clients, fresh),
                Event::Eof => (Session::Closed(Ending::UnexpectedEof), no_action()),
                Event::ReadError => (Session::Closed(Ending::ReadFailed), no_action()),
                Event::WriteError => (Session::Closed(Ending::WriteFailed), no_action()),
                Event::Tick => (Session::AwaitingHandshake, no_action()),
                Event::Delivery(_) => (Session::AwaitingHandshake, no_action()),
            },
            Session::Authenticated { identity, session_id, was_pinged } => match event {
                Event::Line(line) => serve_line(identity, session_id, was_pinged, &line),
                Event::Eof => (
                    Session::Closed(Ending::UnexpectedEof),
                    one_action(Action::Detach { identity, session_id }),
                ),
                Event::ReadError => (
                    Session::Closed(Ending::ReadFailed),
                    two_actions(Action::Detach { identity, session_id }, Action::Close),
                ),
                Event::WriteError => (
                    Session::Closed(Ending::WriteFailed),
                    one_action(Action::Detach { identity, session_id }),
                ),
                Event::Tick => if was_pinged {
                    (
                        Session::Authenticated { identity, session_id, was_pinged: false },
                        no_action(),
                    )
                } else {
                    (
                        Session::Closed(Ending::TimedOut),
                        two_actions(Action::Close, Action::Detach { identity, session_id }),
                    )
                },
                Event::Delivery(message) => (
                    Session::Authenticated { identity, session_id, was_pinged },
                    one_action(Action::Send(message)),
                ),
            },
            Session::Closed(ending) => (Session::Closed(ending), no_action()),
        }
    }

    /// The step that an event calls for. A session that is logged in by this
    /// step gets a random id.
    pub fn on_event(self, event: Event, clients: &Vec<Client>) -> (step: (Session, Vec<Action>))
        ensures
            exists|fresh: u128|
                (step.0@, effects(step.1@)) == #[trigger] next(self@, event@, clients@, fresh),
    {
        let fresh = match self {
            Session::AwaitingHandshake => fresh_session_id(),
            _ => 0u128,
        };
        self.decide(event, clients, fresh)
    }
}

/// Whether a session in this state stands in the presence table.
pub open spec fn is_attached(state: SessionView) -> bool {
    state is Authenticated
}

/// Whether the session stands in the presence table once the actions are
/// carried out, given whether it stood there before.
pub open spec fn attached_after(before: bool, actions: Seq<ActionView>) -> bool
    decreases actions.len(),
{
    if actions.len() == 0 {
        before
    } else {
        match actions.last() {
            ActionView::Attach { .. } => true,
            ActionView::Detach { .. } => false,
            _ => attached_after(before, actions.drop_last()),
        }
    }
}

/// The action sends `HEY`.
pub open spec fn sends_hey(action: ActionView) -> bool {
    action == ActionView::Send(Message::Hey)
}

/// The action sends one of the lines that end a session: `NO`, `BYE` or
/// `ERROR`.
pub open spec fn sends_last_line(action: ActionView) -> bool {
    action matches ActionView::Send(message) && (message is No || message is Bye
        || message is Error)
}

/// The event is the delivery of a message that would end a session if the
/// session itself sent it. Sessions deliver what they are handed, so such a
/// delivery would put that line on the wire of a session that goes on.
pub open spec fn delivers_last_line(event: EventView) -> bool {
    event matches EventView::Delivery(message) && (message is No || message is Bye
        || message is Error)
}

/// The actions of every step keep the books of the presence table: carried
/// out in order, they leave the session in the table exactly if its new
/// state is `Authenticated`. And no step takes the session out of the table
/// after it has sent a line, so that a failed write never keeps a session in
/// the table.
pub proof fn lemma_attachment_follows_state(
    state: SessionView,
    event: EventView,
    clients: Seq<Client>,
    fresh: u128,
)
    ensures
        ({
            let (after, actions) = next(state, event, clients, fresh);
            &&& attached_after(is_attached(state), actions) == is_attached(after)
            &&& forall|j: int, k: int|
                0 <= j < k < actions.len() && (#[trigger] actions[j]) is Send ==> !((
                #[trigger] actions[k]) is Detach)
        }),
{
    reveal_with_fuel(attached_after, 4);
}

/// A session that sends `HEY` is attached by the same step.
pub proof fn lemma_hey_means_attached(
    state: SessionView,
    event: EventView,
    clients: Seq<Client>,
    fresh: u128,
)
    ensures
        ({
            let (after, actions) = next(state, event, clients, fresh);
            forall|k: int|
                0 <= k < actions.len() && sends_hey(#[trigger] actions[k]) ==> is_attached(after)
                    && attached_after(is_attached(state), actions)
        }),
{
    reveal_with_fuel(attached_after, 4);
}

/// A session that sends `NO`, `BYE` or `ERROR` is not attached when the line
/// is written: it never was, or the step has detached it before. The line is
/// the last one of the session: nothing is sent after it, the session is not
/// attached again, and its state is `Closed`. This holds of every step but
/// the delivery of such a message from another session.
pub proof fn lemma_last_line_means_detached(
    state: SessionView,
    event: EventView,
    clients: Seq<Client>,
    fresh: u128,
)
    requires
        !delivers_last_line(event),
    ensures
        ({
            let (after, actions) = next(state, event, clients, fresh);
            forall|k: int|
                0 <= k < actions.len() && sends_last_line(#[trigger] actions[k]) ==> {
                    &&& !attached_after(is_attached(state), actions.take(k))
                    &&& after is Closed
                    &&& forall|j: int|
                        k < j < actions.len() ==> !((#[trigger] actions[j]) is Send) && !(
                        actions[j] is Attach)
                }
        }),
{
    reveal_with_fuel(attached_after, 4);
    let (after, actions) = next(state, event, clients, fresh);
    assert forall|k: int|
        0 <= k < actions.len() && sends_last_line(#[trigger] actions[k]) implies {
        &&& !attached_after(is_attached(state), actions.take(k))
        &&& after is Closed
        &&& forall|j: int|
            k < j < actions.len() ==> !((#[trigger] actions[j]) is Send) && !(actions[j] is Attach)
    } by {
        let before = actions.take(k);
        if k == 0 {
            assert(before.len() == 0);
        } else {
            assert(before.len() == k);
            assert(before.last() == actions[k - 1]);
            assert(before.drop_last().len() == k - 1);
        }
    }
}

/// A closed session stays closed and asks for nothing.
pub proof fn lemma_closed_is_final(
    ending: Ending,
    event: EventView,
    clients: Seq<Client>,
    fresh: u128,
)
    ensures
        next(SessionView::Closed(ending), event, clients, fresh) == (
            SessionView::Closed(ending),
            Seq::<ActionView>::empty(),
        ),
{
}

/// The state after a sequence of events, and all the actions that they
/// called for.
pub open spec fn run(
    state: SessionView,
    events: Seq<EventView>,
    clients: Seq<Client>,
    fresh: u128,
) -> (SessionView, Seq<ActionView>)
    decreases events.len(),
{
    if events.len() == 0 {
        (state, Seq::<ActionView>::empty())
    } else {
        let (middle, earlier) = run(state, events.drop_last(), clients, fresh);
        let (end, last) = next(middle, events.last(), clients, fresh);
        (end, earlier + last)
    }
}

/// The event is a `PING` line of the client.
pub open spec fn is_ping(event: EventView) -> bool {
    event matches EventView::Line(line) && parse(line) == Ok::<Message, ParserError>(Message::Ping)
}

/// No event is a `PING` line.
pub open spec fn without_ping(events: Seq<EventView>) -> bool {
    forall|i: int| 0 <= i < events.len() ==> !is_ping(#[trigger] events[i])
}

/// Without a `PING`, a session that was not pinged stays so until it closes,
/// and it does not close without being detached.
proof fn lemma_run_without_ping(
    identity: Seq<char>,
    session_id: u128,
    events: Seq<EventView>,
    clients: Seq<Client>,
    fresh: u128,
)
    requires
        without_ping(events),
    ensures
        ({
            let start = SessionView::Authenticated { identity, session_id, was_pinged: false };
            let (end, actions) = run(start, events, clients, fresh);
            end == start || (end is Closed && actions.contains(
                ActionView::Detach { identity, session_id },
            ))
        }),
    decreases events.len(),
{
    let start = SessionView::Authenticated { identity, session_id, was_pinged: false };
    let detach = ActionView::Detach { identity, session_id };
    if events.len() > 0 {
        let shorter = events.drop_last();
        assert(without_ping(shorter)) by {
            assert forall|i: int| 0 <= i < shorter.len() implies !is_ping(
                #[trigger] shorter[i],
            ) by {
                assert(shorter[i] == events[i]);
            }
        }
        lemma_run_without_ping(identity, session_id, shorter, clients, fresh);
        let (middle, earlier) = run(start, shorter, clients, fresh);
        let (end, last) = next(middle, events.last(), clients, fresh);
        assert(!is_ping(events[events.len() - 1]));
        if middle == start {
            if end != start {
                let k = choose|k: int| 0 <= k < last.len() && last[k] == detach;
                assert(exists|k: int| 0 <= k < last.len() && last[k] == detach) by {
                    if last.len() > 0 && last[0] == detach {
                    } else {
                        assert(last.len() > 1 && last[1] == detach);
                    }
                }
                assert((earlier + last)[(earlier.len() + k) as int] == detach);
            }
        } else {
            let k = choose|k: int| 0 <= k < earlier.len() && earlier[k] == detach;
            assert((earlier + last)[k] == detach);
        }
    }
}

/// A closed session stays closed whatever follows.
proof fn lemma_run_closed(
    ending: Ending,
    events: Seq<EventView>,
    clients: Seq<Client>,
    fresh: u128,
)
    ensures
        run(SessionView::Closed(ending), events, clients, fresh).0 == SessionView::Closed(ending),
    decreases events.len(),
{
    if events.len() > 0 {
        lemma_run_closed(ending, events.drop_last(), clients, fresh);
    }
}

/// The watchdog: an authenticated session that gets no `PING` line between
/// one tick and the next is closed by the second tick at the latest, and the
/// actions up to there take it out of the presence table.
pub proof fn lemma_watchdog(
    identity: Seq<char>,
    session_id: u128,
    was_pinged: bool,
    events: Seq<EventView>,
    clients: Seq<Client>,
    fresh: u128,
)
    requires
        without_ping(events),
    ensures
        ({
            let start = SessionView::Authenticated { identity, session_id, was_pinged };
            let (ticked, first) = next(start, EventView::Tick, clients, fresh);
            let (end, rest) = run(ticked, events.push(EventView::Tick), clients, fresh);
            end is Closed && (first + rest).contains(ActionView::Detach { identity, session_id })
        }),
{
    let start = SessionView::Authenticated { identity, session_id, was_pinged };
    let detach = ActionView::Detach { identity, session_id };
    let (ticked, first) = next(start, EventView::Tick, clients, fresh);
    let all = events.push(EventView::Tick);
    assert(all.drop_last() == events);
    let (middle, earlier) = run(ticked, events, clients, fresh);
    let (end, last) = next(middle, EventView::Tick, clients, fresh);
    let rest = earlier + last;
    assert(run(ticked, all, clients, fresh) == (end, rest));
    if was_pinged {
        lemma_run_without_ping(identity, session_id, events, clients, fresh);
        if middle == ticked {
            assert(last[1] == detach);
            assert((first + rest)[(first.len() + earlier.len() + 1) as int] == detach);
        } else {
            let k = choose|k: int| 0 <= k < earlier.len() && earlier[k] == detach;
            assert((first + rest)[(first.len() + k) as int] == detach);
        }
    } else {
        lemma_run_closed(Ending::TimedOut, events, clients, fresh);
        assert(first[1] == detach);
        assert((first + rest)[1] == detach);
    }
}

} // verus!
