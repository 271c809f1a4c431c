use argon2::password_hash::{PasswordHasher, Salt};
use argon2::{Algorithm, Argon2, Params, Version};
use boop_server::clients::Client;
use boop_server::message::{create_message_text, MessageErrorKind, MessageType};
use boop_server::presence::PresenceTable;
use boop_server::session::{Action, Ending, Event, Session, AFK_TIMEOUT_SECS};
use tokio::sync::mpsc::{unbounded_channel, UnboundedReceiver};

fn hash_of(password: &str, salt: &str) -> String {
    let params = Params::new(32, 2, 1, None).unwrap();
    let hasher = Argon2::new(Algorithm::Argon2id, Version::V0x13, params);
    let salt = Salt::from_b64(salt).unwrap();
    hasher.hash_password(password.as_bytes(), salt).unwrap().to_string()
}

fn records() -> Vec<Client> {
    vec![
        Client { key: String::from("alice"), hash: hash_of("wonder", "YWxpY2VzYWx0") },
        Client { key: String::from("bob"), hash: hash_of("builder", "Ym9ic3NhbHQx") },
    ]
}

/// One client connection as the server sees it: the session, what was
/// written to the client, and the receiving end of its delivery channel.
struct Peer {
    session: Option<Session>,
    session_id: u128,
    wire: Vec<String>,
    closed: bool,
    deliveries: Option<UnboundedReceiver<MessageType>>,
}

fn connect(session_id: u128) -> Peer {
    Peer {
        session: Some(Session::new()),
        session_id,
        wire: Vec::new(),
        closed: false,
        deliveries: None,
    }
}

fn happen(peer: &mut Peer, event: Event, clients: &Vec<Client>, table: &mut PresenceTable) {
    let session = peer.session.take().unwrap();
    let (after, actions) = session.decide(event, clients, peer.session_id);
    peer.session = Some(after);
    for action in actions {
        match action {
            Action::Send(message) => peer.wire.push(create_message_text(message)),
            Action::Close => peer.closed = true,
            Action::Attach { identity, session_id } => {
                let (tx, rx) = unbounded_channel();
                table.attach(&identity, session_id, tx);
                peer.deliveries = Some(rx);
            },
            Action::Detach { identity, session_id } => table.detach(&identity, session_id),
            Action::Route { target, message } => {
                table.route(&target, &message);
            },
            Action::AnswerPresence { partner } => {
                peer.wire.push(create_message_text(table.answer(partner)))
            },
        }
    }
}

fn line(peer: &mut Peer, text: &str, clients: &Vec<Client>, table: &mut PresenceTable) {
    happen(peer, Event::Line(String::from(text)), clients, table);
}

fn take_deliveries(peer: &mut Peer, clients: &Vec<Client>, table: &mut PresenceTable) {
    let mut arrived = Vec::new();
    if let Some(rx) = peer.deliveries.as_mut() {
        while let Ok(message) = rx.try_recv() {
            arrived.push(message);
        }
    }
    for message in arrived {
        happen(peer, Event::Delivery(message), clients, table);
    }
}

#[test]
fn good_handshake_ping_disconnect() {
    let clients = records();
    let mut table = PresenceTable::new();
    let mut alice = connect(1);
    line(&mut alice, "CONNECT alice wonder\n", &clients, &mut table);
    assert_eq!(alice.wire, vec!["HEY\n"]);
    assert!(table.is_present(&String::from("alice")));
    line(&mut alice, "PING\n", &clients, &mut table);
    assert_eq!(alice.wire, vec!["HEY\n", "PONG\n"]);
    assert!(!alice.closed);
    line(&mut alice, "DISCONNECT\n", &clients, &mut table);
    assert_eq!(alice.wire, vec!["HEY\n", "PONG\n", "BYE\n"]);
    assert!(alice.closed);
    assert_eq!(alice.session, Some(Session::Closed(Ending::Finished)));
    assert!(!table.is_present(&String::from("alice")));
}

#[test]
fn bad_password() {
    let clients = records();
    let mut table = PresenceTable::new();
    let mut alice = connect(1);
    line(&mut alice, "CONNECT alice banana\n", &clients, &mut table);
    assert_eq!(alice.wire, vec!["NO\n"]);
    assert!(alice.closed);
    assert_eq!(alice.session, Some(Session::Closed(Ending::Refused)));
    assert!(!table.is_present(&String::from("alice")));
}

#[test]
fn unknown_identity_and_unreadable_hash_are_refused() {
    let mut clients = records();
    clients.push(Client { key: String::from("carol"), hash: String::from("garbage") });
    let mut table = PresenceTable::new();
    let mut dave = connect(1);
    line(&mut dave, "CONNECT dave wonder\n", &clients, &mut table);
    assert_eq!(dave.wire, vec!["NO\n"]);
    assert!(dave.closed);
    let mut carol = connect(2);
    line(&mut carol, "CONNECT carol wonder\n", &clients, &mut table);
    assert_eq!(carol.wire, vec!["NO\n"]);
    assert_eq!(carol.session, Some(Session::Closed(Ending::Refused)));
    let mut mixed = connect(3);
    line(&mut mixed, "CONNECT alice builder\n", &clients, &mut table);
    assert_eq!(mixed.wire, vec!["NO\n"]);
}

#[test]
fn wrong_first_message() {
    let clients = records();
    let mut table = PresenceTable::new();
    let mut peer = connect(1);
    line(&mut peer, "PING\n", &clients, &mut table);
    assert_eq!(peer.wire, vec!["ERROR PROTOCOL_MISMATCH\n"]);
    assert!(peer.closed);
    assert_eq!(peer.session, Some(Session::Closed(Ending::Rejected)));
}

#[test]
fn malformed_first_line() {
    let clients = records();
    let mut table = PresenceTable::new();
    let mut peer = connect(1);
    line(&mut peer, "HELLO alice wonder\n", &clients, &mut table);
    assert_eq!(peer.wire, vec!["ERROR MALFORMED_COMMAND\n"]);
    assert!(peer.closed);
    let mut peer = connect(2);
    line(&mut peer, "CONNECT alice\n", &clients, &mut table);
    assert_eq!(peer.wire, vec!["ERROR MALFORMED_ARGUMENTS\n"]);
    assert!(peer.closed);
    assert!(!table.is_present(&String::from("alice")));
}

#[test]
fn fan_out_to_two_sessions() {
    let clients = records();
    let mut table = PresenceTable::new();
    let mut a1 = connect(1);
    let mut a2 = connect(2);
    let mut b1 = connect(3);
    line(&mut a1, "CONNECT alice wonder\n", &clients, &mut table);
    line(&mut a2, "CONNECT alice wonder\n", &clients, &mut table);
    line(&mut b1, "CONNECT bob builder\n", &clients, &mut table);
    assert_eq!(a1.wire, vec!["HEY\n"]);
    assert_eq!(a2.wire, vec!["HEY\n"]);
    line(&mut b1, "BOOP alice\n", &clients, &mut table);
    take_deliveries(&mut a1, &clients, &mut table);
    take_deliveries(&mut a2, &clients, &mut table);
    take_deliveries(&mut b1, &clients, &mut table);
    assert_eq!(a1.wire, vec!["HEY\n", "BOOP bob\n"]);
    assert_eq!(a2.wire, vec!["HEY\n", "BOOP bob\n"]);
    assert_eq!(b1.wire, vec!["HEY\n"]);
}

#[test]
fn boop_to_absent_partner_is_silent() {
    let clients = records();
    let mut table = PresenceTable::new();
    let mut alice = connect(1);
    line(&mut alice, "CONNECT alice wonder\n", &clients, &mut table);
    line(&mut alice, "BOOP bob\n", &clients, &mut table);
    take_deliveries(&mut alice, &clients, &mut table);
    assert_eq!(alice.wire, vec!["HEY\n"]);
    assert!(!alice.closed);
}

#[test]
fn presence_query() {
    let clients = records();
    let mut table = PresenceTable::new();
    let mut alice = connect(1);
    let mut bob = connect(2);
    line(&mut alice, "CONNECT alice wonder\n", &clients, &mut table);
    line(&mut alice, "AYT bob\n", &clients, &mut table);
    assert_eq!(alice.wire, vec!["HEY\n", "AFK bob\n"]);
    line(&mut bob, "CONNECT bob builder\n", &clients, &mut table);
    line(&mut alice, "AYT bob\n", &clients, &mut table);
    assert_eq!(alice.wire, vec!["HEY\n", "AFK bob\n", "ONLINE bob\n"]);
}

#[test]
fn afk_timeout() {
    assert_eq!(AFK_TIMEOUT_SECS, 30);
    let clients = records();
    let mut table = PresenceTable::new();
    let mut alice = connect(1);
    let mut bob = connect(2);
    line(&mut alice, "CONNECT alice wonder\n", &clients, &mut table);
    line(&mut bob, "CONNECT bob builder\n", &clients, &mut table);
    happen(&mut alice, Event::Tick, &clients, &mut table);
    assert!(!alice.closed);
    assert!(table.is_present(&String::from("alice")));
    happen(&mut alice, Event::Tick, &clients, &mut table);
    assert!(alice.closed);
    assert_eq!(alice.session, Some(Session::Closed(Ending::TimedOut)));
    assert_eq!(alice.wire, vec!["HEY\n"]);
    line(&mut bob, "AYT alice\n", &clients, &mut table);
    assert_eq!(bob.wire, vec!["HEY\n", "AFK alice\n"]);
}

#[test]
fn ping_keeps_the_session_through_ticks() {
    let clients = records();
    let mut table = PresenceTable::new();
    let mut alice = connect(1);
    line(&mut alice, "CONNECT alice wonder\n", &clients, &mut table);
    for _ in 0..3 {
        happen(&mut alice, Event::Tick, &clients, &mut table);
        line(&mut alice, "ping\n", &clients, &mut table);
    }
    assert!(!alice.closed);
    assert_eq!(alice.wire, vec!["HEY\n", "PONG\n", "PONG\n", "PONG\n"]);
    happen(&mut alice, Event::Tick, &clients, &mut table);
    line(&mut alice, "AYT alice\n", &clients, &mut table);
    line(&mut alice, "BOOP alice\n", &clients, &mut table);
    take_deliveries(&mut alice, &clients, &mut table);
    happen(&mut alice, Event::Tick, &clients, &mut table);
    assert!(alice.closed);
    assert!(!table.is_present(&String::from("alice")));
    assert_eq!(
        alice.wire,
        vec!["HEY\n", "PONG\n", "PONG\n", "PONG\n", "ONLINE alice\n", "BOOP alice\n"]
    );
}

#[test]
fn protocol_error_after_login_detaches() {
    let clients = records();
    let mut table = PresenceTable::new();
    let mut alice = connect(1);
    line(&mut alice, "CONNECT alice wonder\n", &clients, &mut table);
    line(&mut alice, "CONNECT alice wonder\n", &clients, &mut table);
    assert_eq!(alice.wire, vec!["HEY\n", "ERROR PROTOCOL_MISMATCH\n"]);
    assert!(alice.closed);
    assert!(!table.is_present(&String::from("alice")));
    let mut bob = connect(2);
    line(&mut bob, "CONNECT bob builder\n", &clients, &mut table);
    line(&mut bob, "HEY\n", &clients, &mut table);
    assert_eq!(bob.wire, vec!["HEY\n", "ERROR PROTOCOL_MISMATCH\n"]);
    let mut bob = connect(3);
    line(&mut bob, "CONNECT bob builder\n", &clients, &mut table);
    line(&mut bob, "WHAT\n", &clients, &mut table);
    assert_eq!(bob.wire, vec!["HEY\n", "ERROR MALFORMED_COMMAND\n"]);
    let mut bob = connect(4);
    line(&mut bob, "CONNECT bob builder\n", &clients, &mut table);
    line(&mut bob, "BOOP  \n", &clients, &mut table);
    assert_eq!(bob.wire, vec!["HEY\n", "ERROR MALFORMED_ARGUMENTS\n"]);
    assert_eq!(bob.session, Some(Session::Closed(Ending::Rejected)));
    assert!(!table.is_present(&String::from("bob")));
}

#[test]
fn steps_give_their_actions_in_order() {
    let clients = records();
    let session = Session::new();
    let (session, actions) =
        session.decide(Event::Line(String::from("CONNECT alice wonder")), &clients, 42);
    assert_eq!(
        session,
        Session::Authenticated { identity: String::from("alice"), session_id: 42, was_pinged: true }
    );
    assert_eq!(
        actions,
        vec![
            Action::Send(MessageType::HEY),
            Action::Attach { identity: String::from("alice"), session_id: 42 },
        ]
    );
    let (session, actions) = session.decide(Event::Tick, &clients, 0);
    assert_eq!(
        session,
        Session::Authenticated { identity: String::from("alice"), session_id: 42, was_pinged: false }
    );
    assert_eq!(actions, Vec::new());
    let (session, actions) = session.decide(Event::Line(String::from("BOOP bob\n")), &clients, 0);
    assert_eq!(
        actions,
        vec![Action::Route {
            target: String::from("bob"),
            message: MessageType::BOOP(String::from("alice")),
        }]
    );
    let (session, actions) =
        session.decide(Event::Delivery(MessageType::BOOP(String::from("bob"))), &clients, 0);
    assert_eq!(actions, vec![Action::Send(MessageType::BOOP(String::from("bob")))]);
    assert_eq!(
        session,
        Session::Authenticated { identity: String::from("alice"), session_id: 42, was_pinged: false }
    );
    let (session, actions) = session.decide(Event::Line(String::from("NO\n")), &clients, 0);
    assert_eq!(session, Session::Closed(Ending::Rejected));
    assert_eq!(
        actions,
        vec![
            Action::Detach { identity: String::from("alice"), session_id: 42 },
            Action::Send(MessageType::ERROR(MessageErrorKind::ProtocolMismatch)),
            Action::Close,
        ]
    );
    let (session, actions) = session.decide(Event::Line(String::from("PING\n")), &clients, 0);
    assert_eq!(session, Session::Closed(Ending::Rejected));
    assert_eq!(actions, Vec::new());
}

fn detach_bob() -> Action {
    Action::Detach { identity: String::from("bob"), session_id: 5 }
}

#[test]
fn stream_failures_end_the_session() {
    let clients = records();
    let login = String::from("CONNECT bob builder\n");

    let (session, actions) = Session::new().decide(Event::Eof, &clients, 5);
    assert_eq!(session, Session::Closed(Ending::UnexpectedEof));
    assert_eq!(actions, Vec::new());
    let (session, actions) = Session::new().decide(Event::ReadError, &clients, 5);
    assert_eq!(session, Session::Closed(Ending::ReadFailed));
    assert_eq!(actions, Vec::new());
    let (session, actions) = Session::new().decide(Event::WriteError, &clients, 5);
    assert_eq!(session, Session::Closed(Ending::WriteFailed));
    assert_eq!(actions, Vec::new());
    let (session, actions) = Session::new().decide(Event::Tick, &clients, 5);
    assert_eq!(session, Session::AwaitingHandshake);
    assert_eq!(actions, Vec::new());

    let (session, _) = Session::new().decide(Event::Line(login.clone()), &clients, 5);
    let (session, actions) = session.decide(Event::Eof, &clients, 0);
    assert_eq!(session, Session::Closed(Ending::UnexpectedEof));
    assert_eq!(actions, vec![detach_bob()]);

    let (session, _) = Session::new().decide(Event::Line(login.clone()), &clients, 5);
    let (session, actions) = session.decide(Event::ReadError, &clients, 0);
    assert_eq!(session, Session::Closed(Ending::ReadFailed));
    assert_eq!(actions, vec![detach_bob(), Action::Close]);

    let (session, _) = Session::new().decide(Event::Line(login.clone()), &clients, 5);
    let (session, actions) = session.decide(Event::WriteError, &clients, 0);
    assert_eq!(session, Session::Closed(Ending::WriteFailed));
    assert_eq!(actions, vec![detach_bob()]);

    let (session, _) = Session::new().decide(Event::Line(login), &clients, 5);
    let (session, _) = session.decide(Event::Tick, &clients, 0);
    let (session, actions) = session.decide(Event::Tick, &clients, 0);
    assert_eq!(session, Session::Closed(Ending::TimedOut));
    assert!(session.is_closed());
    assert_eq!(actions, vec![Action::Close, detach_bob()]);
}

#[test]
fn random_session_ids_are_version_four() {
    let clients = records();
    let (first, _) =
        Session::new().on_event(Event::Line(String::from("CONNECT alice wonder\n")), &clients);
    let (second, actions) =
        Session::new().on_event(Event::Line(String::from("CONNECT alice wonder\n")), &clients);
    let (first_id, second_id) = match (first, second) {
        (
            Session::Authenticated { session_id: first_id, .. },
            Session::Authenticated { session_id: second_id, .. },
        ) => (first_id, second_id),
        _ => panic!("both logins are good"),
    };
    assert_ne!(first_id, second_id);
    assert_eq!(first_id >> 76 & 0xf, 4);
    assert_eq!(second_id >> 62 & 0x3, 2);
    assert_eq!(
        actions,
        vec![
            Action::Send(MessageType::HEY),
            Action::Attach { identity: String::from("alice"), session_id: second_id },
        ]
    );
}
