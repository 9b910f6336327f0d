//! Runs of commands, and what holds of every run.
//!
//! A run is a list of commands applied to a state one after the other. The
//! laws below are proved for every run whose commands the server accepts.

use vstd::prelude::*;
use crate::id::{lemma_release, lemma_release_then_acquire, IdPool};
use crate::model::{
    lemma_broadcast, lemma_connect, lemma_disconnect, lemma_join, lemma_room_of, main_room,
    ServerState,
};

verus! {

/// A command to the server.
pub enum Command<H> {
    /// A session with handle `addr` connects.
    Connect { addr: H },
    /// Session `id` disconnects.
    Disconnect { id: usize },
    /// Session `id` moves to `room`.
    Join { id: usize, room: Seq<char> },
    /// A message is sent to `room`.
    Broadcast { room: Seq<char> },
    /// The names of the rooms are asked for.
    ListRooms,
}

impl<H> ServerState<H> {
    /// What the server asks of a command: that an identifier and the
    /// sequence numbers it needs are left, and that a session that moves
    /// is connected.
    pub open spec fn accepts(self, c: Command<H>) -> bool {
        match c {
            Command::Connect { addr } => self.ids.can_acquire(),
            Command::Disconnect { id } => true,
            Command::Join { id, room } => self.has_session(id) && self.clock + 2 <= usize::MAX,
            Command::Broadcast { room } => self.clock < usize::MAX,
            Command::ListRooms => true,
        }
    }

    /// The state after a command.
    pub open spec fn step(self, c: Command<H>) -> Self {
        match c {
            Command::Connect { addr } => self.connect(addr),
            Command::Disconnect { id } => self.disconnect(id),
            Command::Join { id, room } => self.join(id, room),
            Command::Broadcast { room } => self.broadcast(),
            Command::ListRooms => self,
        }
    }

    /// The sequence numbers of the records that a command writes, in the
    /// order in which it writes them.
    pub open spec fn issued(self, c: Command<H>) -> Seq<nat> {
        match c {
            Command::Join { id, room } => seq![self.clock + 1, self.clock + 2],
            Command::Broadcast { room } => seq![self.clock + 1],
            _ => Seq::empty(),
        }
    }

    /// The state after a run.
    pub open spec fn run(self, cs: Seq<Command<H>>) -> Self
        decreases cs.len(),
    {
        if cs.len() == 0 {
            self
        } else {
            self.run(cs.drop_last()).step(cs.last())
        }
    }

    /// Every command of the run is accepted in the state that it meets.
    pub open spec fn accepts_all(self, cs: Seq<Command<H>>) -> bool
        decreases cs.len(),
    {
        cs.len() == 0 || (self.accepts_all(cs.drop_last()) && self.run(cs.drop_last()).accepts(
            cs.last(),
        ))
    }

    /// The sequence numbers of all the records that a run writes, in
    /// order.
    pub open spec fn issued_all(self, cs: Seq<Command<H>>) -> Seq<nat>
        decreases cs.len(),
    {
        if cs.len() == 0 {
            Seq::empty()
        } else {
            self.issued_all(cs.drop_last()) + self.run(cs.drop_last()).issued(cs.last())
        }
    }
}

/// Every accepted command keeps the invariant of the server.
pub proof fn lemma_step_keeps_invariant<H>(s: ServerState<H>, c: Command<H>)
    requires
        s.wf(),
        s.accepts(c),
    ensures
        s.step(c).wf(),
{
    match c {
        Command::Connect { addr } => {
            lemma_connect(s, addr);
        },
        Command::Disconnect { id } => {
            lemma_disconnect(s, id);
        },
        Command::Join { id, room } => {
            lemma_join(s, id, room);
        },
        Command::Broadcast { room } => {
            lemma_broadcast(s);
        },
        Command::ListRooms => {},
    }
}

/// In every state that a run reaches, the invariant holds: the sessions
/// are the identifiers in use, every member of a room is a session, every
/// session is a member of exactly one room, and the main room exists.
pub proof fn lemma_run_keeps_invariant<H>(s: ServerState<H>, cs: Seq<Command<H>>)
    requires
        s.wf(),
        s.accepts_all(cs),
    ensures
        s.run(cs).wf(),
        s.run(cs).rooms.contains_key(main_room()),
    decreases cs.len(),
{
    if cs.len() > 0 {
        lemma_run_keeps_invariant(s, cs.drop_last());
        lemma_step_keeps_invariant(s.run(cs.drop_last()), cs.last());
    }
}

/// No two connected sessions ever share an identifier: whatever has
/// happened before, a session that connects gets an identifier that no
/// connected session has, and every other session keeps its handle.
pub proof fn lemma_ids_never_shared<H>(s: ServerState<H>, cs: Seq<Command<H>>, addr: H)
    requires
        s.wf(),
        s.accepts_all(cs),
        s.run(cs).ids.can_acquire(),
    ensures
        !s.run(cs).has_session(s.run(cs).ids.next_id()),
        forall|id: usize| #[trigger]
            s.run(cs).has_session(id) ==> s.run(cs).connect(addr).sessions[id] == s.run(
                cs,
            ).sessions[id],
{
    lemma_run_keeps_invariant(s, cs);
    lemma_connect(s.run(cs), addr);
}

/// No command drops a room.
pub proof fn lemma_rooms_stay<H>(s: ServerState<H>, c: Command<H>, room: Seq<char>)
    requires
        s.rooms.contains_key(room),
    ensures
        s.step(c).rooms.contains_key(room),
{
}

/// The records of a run are numbered one by one from the sequence counter
/// of the state in which the run starts: the numbers rise by one from each
/// record to the next, whichever rooms the commands name.
pub proof fn lemma_sequence_numbers<H>(s: ServerState<H>, cs: Seq<Command<H>>)
    ensures
        s.run(cs).clock == s.clock + s.issued_all(cs).len(),
        forall|i: int|
            0 <= i < s.issued_all(cs).len() ==> #[trigger] s.issued_all(cs)[i] == s.clock + 1 + i,
    decreases cs.len(),
{
    if cs.len() > 0 {
        lemma_sequence_numbers(s, cs.drop_last());
    }
}

/// A run of connections only.
pub open spec fn only_connects<H>(cs: Seq<Command<H>>) -> bool {
    forall|i: int| 0 <= i < cs.len() ==> #[trigger] cs[i] is Connect
}

/// After `n` connections to a server that has just started, and no
/// disconnection, `n` identifiers are in use and the sessions are exactly
/// `1..=n`, all of them in the main room.
pub proof fn lemma_connects_only<H>(cs: Seq<Command<H>>)
    requires
        only_connects(cs),
        cs.len() <= usize::MAX,
    ensures
        ServerState::<H>::init().accepts_all(cs),
        ServerState::<H>::init().run(cs).ids == (IdPool { last: cs.len(), free: Seq::empty() }),
        ServerState::<H>::init().run(cs).ids.count() == cs.len(),
        forall|id: usize|
            #[trigger] ServerState::<H>::init().run(cs).has_session(id) <==> 1 <= id <= cs.len(),
        ServerState::<H>::init().run(cs).rooms.dom() == Set::<Seq<char>>::empty().insert(
            main_room(),
        ),
        forall|id: usize|
            #[trigger] ServerState::<H>::init().run(cs).in_room(id, main_room()) <==> 1 <= id
                <= cs.len(),
    decreases cs.len(),
{
    let s = ServerState::<H>::init();
    if cs.len() == 0 {
        assert(s.rooms.dom() =~= Set::<Seq<char>>::empty().insert(main_room()));
    } else {
        let before = cs.drop_last();
        assert(only_connects(before)) by {
            assert forall|i: int| 0 <= i < before.len() implies #[trigger] before[i] is Connect by {
                assert(cs[i] is Connect);
            }
        }
        lemma_connects_only(before);
        let t = s.run(before);
        assert(cs.last() == cs[cs.len() - 1]);
        assert(cs[cs.len() - 1] is Connect);
        let addr = cs.last()->addr;
        assert(s.run(cs) == t.connect(addr));
        assert(t.connect(addr).rooms.dom() =~= t.rooms.dom());
        assert forall|id: usize| #[trigger]
            s.run(cs).has_session(id) <==> 1 <= id <= cs.len() by {
            assert(t.has_session(id) <==> 1 <= id <= before.len());
        }
        assert forall|id: usize| #[trigger]
            s.run(cs).in_room(id, main_room()) <==> 1 <= id <= cs.len() by {
            assert(t.in_room(id, main_room()) <==> 1 <= id <= before.len());
        }
    }
}

/// A session that connects right after another one has disconnected gets
/// the identifier that has just been released, before any new one is
/// issued.
pub proof fn lemma_reconnect_reuses_id<H>(s: ServerState<H>, id: usize, addr: H)
    requires
        s.wf(),
        s.has_session(id),
    ensures
        s.disconnect(id).accepts((Command::Connect { addr })),
        s.disconnect(id).ids.next_id() == id,
        s.disconnect(id).connect(addr).has_session(id),
        s.disconnect(id).connect(addr).ids == s.ids,
{
    assert(s.ids.is_live(id));
    lemma_release_then_acquire(s.ids, id);
    lemma_release(s.ids, id);
}

/// A second disconnection of the same session changes nothing.
pub proof fn lemma_disconnect_twice<H>(s: ServerState<H>, id: usize)
    requires
        s.wf(),
    ensures
        s.disconnect(id).disconnect(id) == s.disconnect(id),
        !s.has_session(id) ==> s.disconnect(id) == s,
{
    lemma_disconnect(s, id);
}

/// A session that joins the room it is in stays where it is and leaves the
/// registry as it was; the two records are written all the same.
pub proof fn lemma_join_same_room<H>(s: ServerState<H>, id: usize)
    requires
        s.wf(),
        s.has_session(id),
    ensures
        s.join(id, s.room_of(id)).rooms == s.rooms,
        s.join(id, s.room_of(id)).sessions == s.sessions,
        s.issued((Command::Join { id, room: s.room_of(id) })) == seq![s.clock + 1, s.clock + 2],
{
    let home = s.room_of(id);
    let t = s.join(id, home);
    lemma_room_of(s, id);
    lemma_join(s, id, home);
    assert forall|room: Seq<char>| #[trigger] t.rooms.contains_key(room) implies t.rooms[room]
        =~= s.rooms[room] by {
        assert forall|x: usize| t.rooms[room].contains(x) == s.rooms[room].contains(x) by {
            assert(t.in_room(x, room) == t.rooms[room].contains(x));
            if x == id {
                assert(s.in_room(id, room) <==> room == home);
            } else {
                assert(t.in_room(x, room) <==> s.in_room(x, room));
            }
        }
    }
    assert(t.rooms.dom() =~= s.rooms.dom());
    assert(t.rooms =~= s.rooms);
}

/// A session that joins a room is afterwards a member of that room and of
/// no other, and the main room is still there, members or not.
pub proof fn lemma_join_moves<H>(s: ServerState<H>, id: usize, room: Seq<char>)
    requires
        s.wf(),
        s.has_session(id),
    ensures
        forall|r: Seq<char>| #[trigger] s.join(id, room).in_room(id, r) <==> r == room,
        s.join(id, room).rooms.contains_key(main_room()),
        s.join(id, room).rooms.contains_key(room),
{
    lemma_join(s, id, room);
}

} // verus!
