//! The presence table: which identities have sessions, and the delivery
//! handle of each session.
//!
//! The table stands for a map from identity to a map from session id to
//! handle. An identity is in it only while it has a session. The handles are
//! the sending halves of `tokio`'s unbounded channels; handing a message to
//! one never blocks.

use vstd::prelude::*;
use tokio::sync::mpsc::error::SendError;
use tokio::sync::mpsc::UnboundedSender;
use crate::assoc::{
    lemma_pairing_at, lemma_pairing_len, lemma_pairing_push, lemma_pairing_remove,
    lemma_pairing_update, pairing,
};
use crate::message::{Message, MessageType};

verus! {

/// The sending half of an unbounded channel of `tokio`. Nothing of its
/// inside is visible here.
#[verifier::external_type_specification]
#[verifier::external_body]
#[verifier::reject_recursive_types(T)]
pub struct ExUnboundedSender<T>(UnboundedSender<T>);

/// The error with which a send on a closed channel gives the value back.
#[verifier::external_type_specification]
#[verifier::external_body]
#[verifier::reject_recursive_types(T)]
pub struct ExSendError<T>(SendError<T>);

/// Calls `UnboundedSender::send`. Whether the message is taken depends on
/// whether the receiving half is still open, which nothing here can know, so
/// nothing is said of the result.
#[verifier::external_body]
fn hand_over(handle: &UnboundedSender<MessageType>, message: MessageType) -> (outcome: Result<
    (),
    SendError<MessageType>,
>) {
    handle.send(message)
}

/// The sessions of an identity; none where the identity is not in the table.
pub open spec fn sessions_of<H>(
    table: Map<Seq<char>, Map<u128, H>>,
    identity: Seq<char>,
) -> Map<u128, H> {
    if table.contains_key(identity) {
        table[identity]
    } else {
        Map::empty()
    }
}

/// The map has no key.
pub open spec fn vacant<H>(sessions: Map<u128, H>) -> bool {
    forall|id: u128| !sessions.contains_key(id)
}

/// The table with one more session. A session of the same identity and id
/// that was there before is replaced.
pub open spec fn attached<H>(
    table: Map<Seq<char>, Map<u128, H>>,
    identity: Seq<char>,
    session_id: u128,
    handle: H,
) -> Map<Seq<char>, Map<u128, H>> {
    table.insert(identity, sessions_of(table, identity).insert(session_id, handle))
}

/// The table without a session. The identity leaves the table with its last
/// session; a session that is not in the table changes nothing.
pub open spec fn detached<H>(
    table: Map<Seq<char>, Map<u128, H>>,
    identity: Seq<char>,
    session_id: u128,
) -> Map<Seq<char>, Map<u128, H>> {
    let rest = sessions_of(table, identity).remove(session_id);
    if !table.contains_key(identity) {
        table
    } else if vacant(rest) {
        table.remove(identity)
    } else {
        table.insert(identity, rest)
    }
}

/// Every identity in the table has at least one session.
pub open spec fn populated<H>(table: Map<Seq<char>, Map<u128, H>>) -> bool {
    forall|identity: Seq<char>| #[trigger]
        table.contains_key(identity) ==> !vacant(table[identity])
}

/// Attaching keeps every identity populated.
pub proof fn lemma_attached_populated<H>(
    table: Map<Seq<char>, Map<u128, H>>,
    identity: Seq<char>,
    session_id: u128,
    handle: H,
)
    requires
        populated(table),
    ensures
        populated(attached(table, identity, session_id, handle)),
{
    let after = attached(table, identity, session_id, handle);
    assert forall|other: Seq<char>| #[trigger] after.contains_key(other) implies !vacant(
        after[other],
    ) by {
        if other == identity {
            assert(after[other].contains_key(session_id));
        } else {
            assert(table.contains_key(other));
        }
    }
}

/// Detaching keeps every identity populated.
pub proof fn lemma_detached_populated<H>(
    table: Map<Seq<char>, Map<u128, H>>,
    identity: Seq<char>,
    session_id: u128,
)
    requires
        populated(table),
    ensures
        populated(detached(table, identity, session_id)),
{
    let after = detached(table, identity, session_id);
    assert forall|other: Seq<char>| #[trigger] after.contains_key(other) implies !vacant(
        after[other],
    ) by {
        assert(table.contains_key(other));
    }
}

/// One session of an identity.
struct Registration {
    session_id: u128,
    handle: UnboundedSender<MessageType>,
}

/// One identity with its sessions, oldest first.
struct Presence {
    identity: String,
    sessions: Vec<Registration>,
}

/// How many sessions a message was offered to, and how many took it.
#[derive(Debug, PartialEq, Eq, Clone, Copy, Structural)]
pub struct Fanout {
    pub offered: usize,
    pub accepted: usize,
}

/// The identities and their sessions.
pub struct PresenceTable {
    entries: Vec<Presence>,
}

spec fn ids(sessions: Seq<Registration>) -> Seq<u128> {
    sessions.map_values(|r: Registration| r.session_id)
}

spec fn handles(sessions: Seq<Registration>) -> Seq<UnboundedSender<MessageType>> {
    sessions.map_values(|r: Registration| r.handle)
}

spec fn sessions_map(sessions: Seq<Registration>) -> Map<u128, UnboundedSender<MessageType>> {
    pairing(ids(sessions), handles(sessions))
}

spec fn identities(entries: Seq<Presence>) -> Seq<Seq<char>> {
    entries.map_values(|e: Presence| e.identity@)
}

spec fn session_maps(entries: Seq<Presence>) -> Seq<Map<u128, UnboundedSender<MessageType>>> {
    entries.map_values(|e: Presence| sessions_map(e.sessions@))
}

spec fn sound(entry: Presence) -> bool {
    entry.sessions@.len() > 0 && ids(entry.sessions@).no_duplicates()
}

/// A list of sessions is empty exactly when its map is.
proof fn lemma_sessions_vacant(sessions: Seq<Registration>)
    requires
        ids(sessions).no_duplicates(),
    ensures
        vacant(sessions_map(sessions)) <==> sessions.len() == 0,
{
    if sessions.len() > 0 {
        lemma_pairing_at(ids(sessions), handles(sessions), 0);
    } else {
        assert forall|id: u128| !sessions_map(sessions).contains_key(id) by {
            if ids(sessions).contains(id) {
                let k = ids(sessions).index_of(id);
            }
        }
    }
}

/// The place of a session id among the sessions.
fn find_session(sessions: &Vec<Registration>, session_id: u128) -> (found: Option<usize>)
    ensures
        match found {
            Some(k) => k < sessions.len() && ids(sessions@)[k as int] == session_id,
            None => !ids(sessions@).contains(session_id),
        },
{
    let mut k: usize = 0;
    while k < sessions.len()
        invariant
            k <= sessions.len(),
            forall|j: int| 0 <= j < k ==> ids(sessions@)[j] != session_id,
        decreases sessions.len() - k,
    {
        if sessions[k].session_id == session_id {
            return Some(k);
        }
        k = k + 1;
    }
    None
}

/// Puts a session among the sessions, in place of one with the same id if
/// there is one.
fn put_session(
    sessions: &mut Vec<Registration>,
    session_id: u128,
    handle: UnboundedSender<MessageType>,
)
    requires
        ids(old(sessions)@).no_duplicates(),
    ensures
        ids(final(sessions)@).no_duplicates(),
        final(sessions)@.len() > 0,
        sessions_map(final(sessions)@) == sessions_map(old(sessions)@).insert(session_id, handle),
{
    let ghost before = sessions@;
    let entry = Registration { session_id, handle };
    match find_session(sessions, session_id) {
        Some(k) => {
            sessions.set(k, entry);
            proof {
                assert(ids(sessions@) == ids(before));
                assert(handles(sessions@) == handles(before).update(k as int, handle));
                lemma_pairing_update(ids(before), handles(before), k as int, handle);
            }
        },
        None => {
            sessions.push(entry);
            proof {
                assert(ids(sessions@) == ids(before).push(session_id));
                assert(handles(sessions@) == handles(before).push(handle));
                lemma_pairing_push(ids(before), handles(before), session_id, handle);
            }
        },
    }
}

/// Takes a session out of the sessions, if it is among them.
fn take_session(sessions: &mut Vec<Registration>, session_id: u128)
    requires
        ids(old(sessions)@).no_duplicates(),
    ensures
        ids(final(sessions)@).no_duplicates(),
        sessions_map(final(sessions)@) == sessions_map(old(sessions)@).remove(session_id),
{
    let ghost before = sessions@;
    match find_session(sessions, session_id) {
        Some(k) => {
            let gone = sessions.remove(k);
            proof {
                assert(ids(sessions@) == ids(before).remove(k as int));
                assert(handles(sessions@) == handles(before).remove(k as int));
                lemma_pairing_remove(ids(before), handles(before), k as int);
            }
        },
        None => {
            assert(sessions_map(before).remove(session_id) == sessions_map(before));
        },
    }
}

/// The map that the rows of a table stand for.
spec fn table_map(entries: Seq<Presence>) -> Map<Seq<char>, Map<u128, UnboundedSender<MessageType>>> {
    pairing(identities(entries), session_maps(entries))
}

/// No identity stands twice among the rows, none stands there without a
/// session, and no identity has two sessions with one id.
spec fn well_formed(entries: Seq<Presence>) -> bool {
    &&& identities(entries).no_duplicates()
    &&& forall|i: int| 0 <= i < entries.len() ==> sound(#[trigger] entries[i])
}

/// In well-formed rows every identity has a session.
proof fn lemma_rows_populated(entries: Seq<Presence>)
    requires
        well_formed(entries),
    ensures
        populated(table_map(entries)),
{
    let names = identities(entries);
    let maps = session_maps(entries);
    let table = table_map(entries);
    assert forall|identity: Seq<char>| #[trigger] table.contains_key(identity) implies !vacant(
        table[identity],
    ) by {
        let i = names.index_of(identity);
        lemma_pairing_at(names, maps, i);
        assert(sound(entries[i]));
        lemma_sessions_vacant(entries[i].sessions@);
    }
}

/// No rows, no identities.
proof fn lemma_rows_empty(entries: Seq<Presence>)
    requires
        entries.len() == 0,
    ensures
        table_map(entries) == Map::<Seq<char>, Map<u128, UnboundedSender<MessageType>>>::empty(),
{
    assert forall|identity: Seq<char>| !table_map(entries).contains_key(identity) by {
        if identities(entries).contains(identity) {
            let i = identities(entries).index_of(identity);
        }
    }
    assert(table_map(entries) =~= Map::<
        Seq<char>,
        Map<u128, UnboundedSender<MessageType>>,
    >::empty());
}

/// The place of an identity among the rows.
fn find_identity(entries: &Vec<Presence>, identity: &String) -> (found: Option<usize>)
    ensures
        match found {
            Some(i) => i < entries@.len() && identities(entries@)[i as int] == identity@,
            None => !identities(entries@).contains(identity@),
        },
{
    let mut i: usize = 0;
    while i < entries.len()
        invariant
            i <= entries@.len(),
            forall|j: int| 0 <= j < i ==> identities(entries@)[j] != identity@,
        decreases entries@.len() - i,
    {
        if entries[i].identity == *identity {
            return Some(i);
        }
        i = i + 1;
    }
    None
}

/// Enters a session into the rows.
fn attach_row(
    entries: &mut Vec<Presence>,
    identity: &String,
    session_id: u128,
    handle: UnboundedSender<MessageType>,
)
    requires
        well_formed(old(entries)@),
    ensures
        well_formed(final(entries)@),
        table_map(final(entries)@) == attached(
            table_map(old(entries)@),
            identity@,
            session_id,
            handle,
        ),
{
    let ghost before = entries@;
    let ghost names = identities(before);
    let ghost maps = session_maps(before);
    match find_identity(entries, identity) {
        Some(i) => {
            let mut entry = entries.remove(i);
            assert(sound(before[i as int]));
            put_session(&mut entry.sessions, session_id, handle);
            let ghost grown = sessions_map(entry.sessions@);
            entries.insert(i, entry);
            proof {
                lemma_pairing_at(names, maps, i as int);
                assert(entries@ == before.update(i as int, entry));
                assert(identities(entries@) == names);
                assert(session_maps(entries@) == maps.update(i as int, grown));
                lemma_pairing_update(names, maps, i as int, grown);
                assert forall|j: int| 0 <= j < entries@.len() implies sound(
                    #[trigger] entries@[j],
                ) by {
                    if j != i {
                        assert(sound(before[j]));
                    }
                }
            }
        },
        None => {
            let mut sessions: Vec<Registration> = Vec::new();
            assert(sessions_map(sessions@) =~= Map::<
                u128,
                UnboundedSender<MessageType>,
            >::empty()) by {
                lemma_sessions_vacant(sessions@);
            }
            put_session(&mut sessions, session_id, handle);
            let ghost single = sessions_map(sessions@);
            let entry = Presence { identity: identity.clone(), sessions };
            entries.push(entry);
            proof {
                assert(identities(entries@) == names.push(identity@));
                assert(session_maps(entries@) == maps.push(single));
                lemma_pairing_push(names, maps, identity@, single);
                assert forall|j: int| 0 <= j < entries@.len() implies sound(
                    #[trigger] entries@[j],
                ) by {
                    if j < before.len() {
                        assert(sound(before[j]));
                    }
                }
            }
        },
    }
}

/// Takes a session out of the rows, and its identity with it where the
/// session was the identity's last.
fn detach_row(entries: &mut Vec<Presence>, identity: &String, session_id: u128)
    requires
        well_formed(old(entries)@),
    ensures
        well_formed(final(entries)@),
        table_map(final(entries)@) == detached(table_map(old(entries)@), identity@, session_id),
{
    let ghost before = entries@;
    let ghost names = identities(before);
    let ghost maps = session_maps(before);
    match find_identity(entries, identity) {
        Some(i) => {
            let mut entry = entries.remove(i);
            assert(sound(before[i as int]));
            take_session(&mut entry.sessions, session_id);
            let ghost rest = sessions_map(entry.sessions@);
            proof {
                lemma_pairing_at(names, maps, i as int);
                lemma_sessions_vacant(entry.sessions@);
                lemma_pairing_remove(names, maps, i as int);
                assert(identities(entries@) == names.remove(i as int));
                assert(session_maps(entries@) == maps.remove(i as int));
                assert forall|j: int| 0 <= j < entries@.len() implies sound(
                    #[trigger] entries@[j],
                ) by {
                    if j < i {
                        assert(sound(before[j]));
                    } else {
                        assert(sound(before[j + 1]));
                    }
                }
            }
            if entry.sessions.len() > 0 {
                entries.insert(i, entry);
                proof {
                    assert(entries@ == before.update(i as int, entry));
                    assert(identities(entries@) == names);
                    assert(session_maps(entries@) == maps.update(i as int, rest));
                    lemma_pairing_update(names, maps, i as int, rest);
                    assert forall|j: int| 0 <= j < entries@.len() implies sound(
                        #[trigger] entries@[j],
                    ) by {
                        if j != i {
                            assert(sound(before[j]));
                        }
                    }
                }
            }
        },
        None => {},
    }
}

impl PresenceTable {
    /// The table as a map from identity to the sessions of the identity.
    pub closed spec fn view(&self) -> Map<Seq<char>, Map<u128, UnboundedSender<MessageType>>> {
        table_map(self.entries@)
    }

    #[verifier::type_invariant]
    spec fn wf(&self) -> bool {
        well_formed(self.entries@)
    }

    /// The empty table.
    pub fn new() -> (table: PresenceTable)
        ensures
            table@ == Map::<Seq<char>, Map<u128, UnboundedSender<MessageType>>>::empty(),
            populated(table@),
    {
        let table = PresenceTable { entries: Vec::new() };
        proof {
            lemma_rows_empty(table.entries@);
        }
        table
    }

    /// Enters a session under its identity, with the handle on which the
    /// session takes deliveries.
    pub fn attach(
        &mut self,
        identity: &String,
        session_id: u128,
        handle: UnboundedSender<MessageType>,
    )
        ensures
            final(self)@ == attached(old(self)@, identity@, session_id, handle),
            populated(final(self)@),
    {
        proof {
            use_type_invariant(&*self);
        }
        let mut entries: Vec<Presence> = Vec::new();
        core::mem::swap(&mut self.entries, &mut entries);
        attach_row(&mut entries, identity, session_id, handle);
        proof {
            lemma_rows_populated(entries@);
        }
        self.entries = entries;
    }

    /// Takes a session out of the table, and its identity with it where the
    /// session was the identity's last. A session that is not in the table
    /// changes nothing.
    pub fn detach(&mut self, identity: &String, session_id: u128)
        ensures
            final(self)@ == detached(old(self)@, identity@, session_id),
            populated(final(self)@),
    {
        proof {
            use_type_invariant(&*self);
        }
        let mut entries: Vec<Presence> = Vec::new();
        core::mem::swap(&mut self.entries, &mut entries);
        detach_row(&mut entries, identity, session_id);
        proof {
            lemma_rows_populated(entries@);
        }
        self.entries = entries;
    }

    /// Whether the identity has a session.
    pub fn is_present(&self, identity: &String) -> (present: bool)
        ensures
            present == self@.contains_key(identity@),
            populated(self@),
    {
        proof {
            use_type_invariant(self);
            lemma_rows_populated(self.entries@);
        }
        match find_identity(&self.entries, identity) {
            Some(i) => {
                assert(identities(self.entries@).contains(identity@));
                true
            },
            None => false,
        }
    }

    /// The answer to a presence query: `ONLINE` where the partner has a
    /// session, `AFK` where it has none.
    pub fn answer(&self, partner: String) -> (reply: MessageType)
        ensures
            reply@ == if self@.contains_key(partner@) {
                Message::Online(partner@)
            } else {
                Message::Afk(partner@)
            },
    {
        if self.is_present(&partner) {
            MessageType::ONLINE(partner)
        } else {
            MessageType::AFK(partner)
        }
    }

    /// Offers a copy of the message to every session of the target, oldest
    /// first. A session that no longer takes messages is passed over. The
    /// table is left as it is.
    pub fn route(&self, target: &String, message: &MessageType) -> (fanout: Fanout)
        ensures
            sessions_of(self@, target@).dom().finite(),
            fanout.offered == sessions_of(self@, target@).dom().len(),
            fanout.accepted <= fanout.offered,
    {
        proof {
            use_type_invariant(self);
        }
        match find_identity(&self.entries, target) {
            Some(i) => {
                let sessions = &self.entries[i].sessions;
                proof {
                    assert(identities(self.entries@).contains(target@));
                    lemma_pairing_at(
                        identities(self.entries@),
                        session_maps(self.entries@),
                        i as int,
                    );
                    assert(sound(self.entries@[i as int]));
                    lemma_pairing_len(ids(sessions@), handles(sessions@));
                }
                let mut accepted: usize = 0;
                let mut k: usize = 0;
                while k < sessions.len()
                    invariant
                        k <= sessions.len(),
                        accepted <= k,
                    decreases sessions.len() - k,
                {
                    if hand_over(&sessions[k].handle, message.clone()).is_ok() {
                        accepted = accepted + 1;
                    }
                    k = k + 1;
                }
                Fanout { offered: k, accepted }
            },
            None => {
                assert(sessions_of(self@, target@).dom() =~= Set::<u128>::empty());
                Fanout { offered: 0, accepted: 0 }
            },
        }
    }
}

} // verus!
