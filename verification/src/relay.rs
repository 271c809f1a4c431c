//! All the sessions of a server and the presence table between them, as a
//! model.
//!
//! The model holds the state of every session that was ever accepted and a
//! presence table whose handles are the indices of the sessions that own
//! them. A step of the model is a step of one session, as `session::next`
//! gives it, with its actions carried out on the table by the operations
//! that `PresenceTable` is specified with. The lemmas show what holds of the
//! table after every step.

use vstd::prelude::*;
use crate::clients::Client;
use crate::presence::{
    attached, detached, lemma_attached_populated, lemma_detached_populated, populated,
};
use crate::session::{next, ActionView, EventView, SessionView};

verus! {

/// The sessions, and the presence table with the owner of each entry.
pub struct World {
    pub sessions: Seq<SessionView>,
    pub table: Map<Seq<char>, Map<u128, int>>,
}

/// What one action of the session `owner` does to the table.
pub open spec fn apply(table: Map<Seq<char>, Map<u128, int>>, action: ActionView, owner: int) -> Map<
    Seq<char>,
    Map<u128, int>,
> {
    match action {
        ActionView::Attach { identity, session_id } => attached(
            table,
            identity,
            session_id,
            owner,
        ),
        ActionView::Detach { identity, session_id } => detached(table, identity, session_id),
        _ => table,
    }
}

/// What the actions of the session `owner` do to the table, one after the
/// other.
pub open spec fn apply_all(
    table: Map<Seq<char>, Map<u128, int>>,
    actions: Seq<ActionView>,
    owner: int,
) -> Map<Seq<char>, Map<u128, int>>
    decreases actions.len(),
{
    if actions.len() == 0 {
        table
    } else {
        apply(apply_all(table, actions.drop_last(), owner), actions.last(), owner)
    }
}

/// A server without sessions.
pub open spec fn start() -> World {
    World { sessions: Seq::empty(), table: Map::empty() }
}

/// The server with one more connection, which awaits its handshake.
pub open spec fn accept(world: World) -> World {
    World { sessions: world.sessions.push(SessionView::AwaitingHandshake), table: world.table }
}

/// The server after session `k` has taken an event and its actions have been
/// carried out.
pub open spec fn step(
    world: World,
    k: int,
    event: EventView,
    clients: Seq<Client>,
    fresh: u128,
) -> World {
    let (after, actions) = next(world.sessions[k], event, clients, fresh);
    World {
        sessions: world.sessions.update(k, after),
        table: apply_all(world.table, actions, k),
    }
}

/// Every entry of the table belongs to a session that is authenticated under
/// the identity and the id of the entry, and every identity in the table has
/// a session.
pub open spec fn sound(world: World) -> bool {
    &&& populated(world.table)
    &&& forall|identity: Seq<char>, session_id: u128|
        world.table.contains_key(identity) && #[trigger] world.table[identity].contains_key(
            session_id,
        ) ==> owns(world, world.table[identity][session_id], identity, session_id)
}

/// Session `owner` is authenticated under this identity and id.
pub open spec fn owns(world: World, owner: int, identity: Seq<char>, session_id: u128) -> bool {
    &&& 0 <= owner < world.sessions.len()
    &&& world.sessions[owner] matches SessionView::Authenticated {
        identity: name,
        session_id: id,
        ..
    }
    &&& name == identity
    &&& id == session_id
}

/// What the actions of a step do to the table, read off the states before
/// and after: a session that becomes authenticated is attached, one that
/// ceases to be is detached, and nothing else touches the table.
pub proof fn lemma_step_on_table(
    state: SessionView,
    event: EventView,
    clients: Seq<Client>,
    fresh: u128,
    table: Map<Seq<char>, Map<u128, int>>,
    owner: int,
)
    ensures
        ({
            let (after, actions) = next(state, event, clients, fresh);
            let result = apply_all(table, actions, owner);
            match state {
                SessionView::AwaitingHandshake => match after {
                    SessionView::Authenticated { identity, session_id, .. } => result == attached(
                        table,
                        identity,
                        session_id,
                        owner,
                    ),
                    _ => result == table,
                },
                SessionView::Authenticated { identity, session_id, .. } => match after {
                    SessionView::Authenticated { identity: name, session_id: id, .. } => {
                        result == table && name == identity && id == session_id
                    },
                    SessionView::Closed(_) => result == detached(table, identity, session_id),
                    SessionView::AwaitingHandshake => false,
                },
                SessionView::Closed(_) => after == state && result == table,
            }
        }),
{
    reveal_with_fuel(apply_all, 4);
}

/// The server without sessions is sound.
pub proof fn lemma_start_sound()
    ensures
        sound(start()),
{
}

/// Accepting a connection keeps the server sound.
pub proof fn lemma_accept_sound(world: World)
    requires
        sound(world),
    ensures
        sound(accept(world)),
{
    let grown = accept(world);
    assert forall|identity: Seq<char>, session_id: u128|
        grown.table.contains_key(identity) && #[trigger] grown.table[identity].contains_key(
            session_id,
        ) implies owns(grown, grown.table[identity][session_id], identity, session_id) by {
        let owner = world.table[identity][session_id];
        assert(owns(world, owner, identity, session_id));
        assert(grown.sessions[owner] == world.sessions[owner]);
    }
}

/// Every step of every session keeps the server sound: whatever stands in
/// the presence table belongs to a session that has completed its handshake
/// and is not closed, and no identity stands there without a session.
pub proof fn lemma_step_sound(
    world: World,
    k: int,
    event: EventView,
    clients: Seq<Client>,
    fresh: u128,
)
    requires
        sound(world),
        0 <= k < world.sessions.len(),
    ensures
        sound(step(world, k, event, clients, fresh)),
{
    let state = world.sessions[k];
    let (after, actions) = next(state, event, clients, fresh);
    let moved = step(world, k, event, clients, fresh);
    lemma_step_on_table(state, event, clients, fresh, world.table, k);
    match state {
        SessionView::AwaitingHandshake => match after {
            SessionView::Authenticated { identity, session_id, .. } => {
                lemma_attached_populated(world.table, identity, session_id, k);
            },
            _ => {},
        },
        SessionView::Authenticated { identity, session_id, .. } => match after {
            SessionView::Closed(_) => {
                lemma_detached_populated(world.table, identity, session_id);
            },
            _ => {},
        },
        SessionView::Closed(_) => {},
    }
    assert forall|identity: Seq<char>, session_id: u128|
        moved.table.contains_key(identity) && #[trigger] moved.table[identity].contains_key(
            session_id,
        ) implies owns(moved, moved.table[identity][session_id], identity, session_id) by {
        let owner = moved.table[identity][session_id];
        if owner == k && owns(moved, k, identity, session_id) {
        } else {
            assert(world.table.contains_key(identity) && world.table[identity].contains_key(
                session_id,
            ));
            assert(world.table[identity][session_id] == owner);
            assert(owns(world, owner, identity, session_id));
            if owner != k {
                assert(moved.sessions[owner] == world.sessions[owner]);
            }
        }
    }
}

} // verus!
