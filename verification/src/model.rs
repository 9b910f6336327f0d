//! Mathematical model of the chat server.
//!
//! The model is the state that the server stands for, with one transition
//! for each command. The contracts of the server speak of it, and the laws
//! of the server are proved on it.

use vstd::prelude::*;
use crate::id::{lemma_acquire, lemma_release, IdPool};
use crate::rooms::{entered, is_fan_out, members_of, vacated, with_room};
use crate::sql::ChatRecord;

verus! {

/// The name of the room that every session enters first.
pub open spec fn main_room() -> Seq<char> {
    "main"@
}

/// Mathematical model of a notice: the record to log, if any, the text to
/// push, and the sessions to push it to.
pub struct NoticeView {
    /// The record to write to the log, if any.
    pub record: Option<ChatRecord>,
    /// The text to push.
    pub message: Seq<char>,
    /// The sessions to push it to.
    pub to: Seq<usize>,
}

impl NoticeView {
    /// The notice logs nothing and pushes `text` to each of `members`
    /// once.
    pub open spec fn plain(self, text: Seq<char>, members: Set<usize>) -> bool {
        &&& self.record is None
        &&& self.message == text
        &&& is_fan_out(self.to, members)
    }

    /// The notice logs `record` and pushes its JSON text to each of
    /// `members` once.
    pub open spec fn carries(self, record: ChatRecord, members: Set<usize>) -> bool {
        &&& self.record == Some(record)
        &&& self.message == record.json()
        &&& is_fan_out(self.to, members)
    }
}

/// The state of a chat server, over handles of type `H`.
#[verifier::reject_recursive_types(H)]
pub struct ServerState<H> {
    /// The session directory: each connected session with its handle.
    pub sessions: Map<usize, H>,
    /// The room registry: each room with its members.
    pub rooms: Map<Seq<char>, Set<usize>>,
    /// The identifiers issued and released.
    pub ids: IdPool,
    /// The sequence number of the latest record.
    pub clock: nat,
}

impl<H> ServerState<H> {
    /// The state of a server that has just started: no session, and the
    /// main room, empty.
    pub open spec fn init() -> Self {
        ServerState {
            sessions: Map::empty(),
            rooms: with_room(Map::empty(), main_room()),
            ids: IdPool::empty(),
            clock: 0,
        }
    }

    /// Session `id` is connected.
    pub open spec fn has_session(self, id: usize) -> bool {
        self.sessions.contains_key(id)
    }

    /// Session `id` is a member of `room`.
    pub open spec fn in_room(self, id: usize, room: Seq<char>) -> bool {
        self.rooms.contains_key(room) && self.rooms[room].contains(id)
    }

    /// The members of `room`; none if there is no such room.
    pub open spec fn members(self, room: Seq<char>) -> Set<usize> {
        members_of(self.rooms, room)
    }

    /// A room that session `id` is a member of.
    pub open spec fn room_of(self, id: usize) -> Seq<char> {
        choose|room: Seq<char>| self.in_room(id, room)
    }

    /// The invariant of the server: the sessions are the identifiers in
    /// use, the main room exists, every member of a room is a session, and
    /// every session is a member of exactly one room.
    pub open spec fn wf(self) -> bool {
        &&& self.ids.wf()
        &&& forall|id: usize| #[trigger] self.has_session(id) <==> self.ids.is_live(id)
        &&& self.rooms.contains_key(main_room())
        &&& forall|id: usize, room: Seq<char>| #[trigger]
            self.in_room(id, room) ==> self.has_session(id)
        &&& forall|id: usize, r1: Seq<char>, r2: Seq<char>|
            #[trigger] self.in_room(id, r1) && #[trigger] self.in_room(id, r2) ==> r1 == r2
        &&& forall|id: usize| #[trigger]
            self.has_session(id) ==> exists|room: Seq<char>| self.in_room(id, room)
    }

    /// The registry after `id` has been taken out of every room.
    pub open spec fn vacate(self, id: usize) -> Map<Seq<char>, Set<usize>> {
        vacated(self.rooms, id)
    }

    /// The state after a session with handle `addr` has connected: it has
    /// the next identifier and is a member of the main room.
    pub open spec fn connect(self, addr: H) -> Self {
        ServerState {
            sessions: self.sessions.insert(self.ids.next_id(), addr),
            rooms: entered(self.rooms, self.ids.next_id(), main_room()),
            ids: self.ids.acquire(),
            clock: self.clock,
        }
    }

    /// The state after session `id` has disconnected: its identifier is
    /// released and it has left its room. Nothing changes if there is no
    /// such session.
    pub open spec fn disconnect(self, id: usize) -> Self {
        if self.has_session(id) {
            ServerState {
                sessions: self.sessions.remove(id),
                rooms: self.vacate(id),
                ids: self.ids.release(id),
                clock: self.clock,
            }
        } else {
            self
        }
    }

    /// The state after session `id` has moved to `room`. Two records were
    /// written on the way.
    pub open spec fn join(self, id: usize, room: Seq<char>) -> Self {
        ServerState {
            sessions: self.sessions,
            rooms: entered(self.vacate(id), id, room),
            ids: self.ids,
            clock: self.clock + 2,
        }
    }

    /// The state after a message has been broadcast: one record was
    /// written.
    pub open spec fn broadcast(self) -> Self {
        ServerState {
            sessions: self.sessions,
            rooms: self.rooms,
            ids: self.ids,
            clock: self.clock + 1,
        }
    }
}

/// A connecting session gets an identifier that no connected session has,
/// the other sessions keep theirs, and the invariant is kept.
pub proof fn lemma_connect<H>(s: ServerState<H>, addr: H)
    requires
        s.wf(),
        s.ids.can_acquire(),
    ensures
        !s.has_session(s.ids.next_id()),
        s.connect(addr).wf(),
        s.connect(addr).has_session(s.ids.next_id()),
        s.connect(addr).in_room(s.ids.next_id(), main_room()),
        forall|id: usize| #[trigger]
            s.has_session(id) ==> s.connect(addr).sessions[id] == s.sessions[id],
{
    let t = s.connect(addr);
    let new = s.ids.next_id();
    lemma_acquire(s.ids);
    assert(!s.has_session(new));
    assert forall|id: usize| #[trigger] t.has_session(id) <==> t.ids.is_live(id) by {
        assert(t.ids.live().contains(id) == t.ids.is_live(id));
        assert(s.ids.live().contains(id) == s.ids.is_live(id));
        assert(s.has_session(id) <==> s.ids.is_live(id));
    }
    assert forall|id: usize, room: Seq<char>| #[trigger] t.in_room(id, room) implies (id == new
        && room == main_room()) || s.in_room(id, room) by {}
    assert forall|id: usize, room: Seq<char>| #[trigger] t.in_room(id, room) implies t.has_session(
        id,
    ) by {
        if !(id == new && room == main_room()) {
            assert(s.in_room(id, room));
        }
    }
    assert forall|id: usize, r1: Seq<char>, r2: Seq<char>| #[trigger]
        t.in_room(id, r1) && #[trigger] t.in_room(id, r2) implies r1 == r2 by {
        if id == new {
            if r1 != main_room() {
                assert(s.in_room(id, r1));
            }
            if r2 != main_room() {
                assert(s.in_room(id, r2));
            }
        } else {
            assert(s.in_room(id, r1));
            assert(s.in_room(id, r2));
        }
    }
    assert forall|id: usize| #[trigger] t.has_session(id) implies exists|room: Seq<char>|
        t.in_room(id, room) by {
        if id == new {
            assert(t.in_room(id, main_room()));
        } else {
            assert(s.has_session(id));
            let room = s.room_of(id);
            assert(s.in_room(id, room));
            assert(t.in_room(id, room));
        }
    }
}

/// A disconnecting session leaves the directory and its room, the other
/// sessions stay where they were, and the invariant is kept.
pub proof fn lemma_disconnect<H>(s: ServerState<H>, id: usize)
    requires
        s.wf(),
    ensures
        s.disconnect(id).wf(),
        !s.disconnect(id).has_session(id),
        forall|room: Seq<char>| !#[trigger] s.disconnect(id).in_room(id, room),
        forall|other: usize, room: Seq<char>|
            other != id ==> (#[trigger] s.disconnect(id).in_room(other, room) <==> s.in_room(
                other,
                room,
            )),
        s.disconnect(id).rooms.dom() == s.rooms.dom(),
{
    let t = s.disconnect(id);
    if s.has_session(id) {
        assert(s.ids.is_live(id));
        lemma_release(s.ids, id);
        assert forall|x: usize| #[trigger] t.has_session(x) <==> t.ids.is_live(x) by {
            assert(t.ids.live().contains(x) == t.ids.is_live(x));
            assert(s.ids.live().contains(x) == s.ids.is_live(x));
            assert(s.has_session(x) <==> s.ids.is_live(x));
        }
        assert forall|x: usize, room: Seq<char>| #[trigger] t.in_room(x, room) <==> (x != id
            && s.in_room(x, room)) by {}
        assert forall|x: usize, room: Seq<char>| #[trigger] t.in_room(x, room) implies t.has_session(
            x,
        ) by {
            assert(s.in_room(x, room));
        }
        assert forall|x: usize, r1: Seq<char>, r2: Seq<char>| #[trigger]
            t.in_room(x, r1) && #[trigger] t.in_room(x, r2) implies r1 == r2 by {
            assert(s.in_room(x, r1));
            assert(s.in_room(x, r2));
        }
        assert forall|x: usize| #[trigger] t.has_session(x) implies exists|room: Seq<char>|
            t.in_room(x, room) by {
            assert(s.has_session(x));
            let room = s.room_of(x);
            assert(s.in_room(x, room));
            assert(t.in_room(x, room));
        }
        assert(t.rooms.dom() =~= s.rooms.dom());
    } else {
        assert forall|room: Seq<char>| !#[trigger] t.in_room(id, room) by {
            if t.in_room(id, room) {
                assert(s.has_session(id));
            }
        }
    }
}

/// A session that joins a room leaves every room it was in and is then a
/// member of that room and of no other; the other sessions stay where
/// they were, no room is dropped, and the invariant is kept.
pub proof fn lemma_join<H>(s: ServerState<H>, id: usize, room: Seq<char>)
    requires
        s.wf(),
        s.has_session(id),
    ensures
        s.join(id, room).wf(),
        forall|r: Seq<char>| #[trigger] s.join(id, room).in_room(id, r) <==> r == room,
        forall|other: usize, r: Seq<char>|
            other != id ==> (#[trigger] s.join(id, room).in_room(other, r) <==> s.in_room(
                other,
                r,
            )),
        s.join(id, room).rooms.dom() == s.rooms.dom().insert(room),
        s.join(id, room).sessions == s.sessions,
{
    let t = s.join(id, room);
    let w = s.vacate(id);
    assert forall|x: usize, r: Seq<char>| #[trigger] t.in_room(x, r) <==> (if x == id {
        r == room
    } else {
        s.in_room(x, r)
    }) by {
        if w.contains_key(r) {
            assert(w[r] == s.rooms[r].remove(id));
        }
    }
    assert forall|x: usize, r: Seq<char>| #[trigger] t.in_room(x, r) implies t.has_session(x) by {
        if x != id {
            assert(s.in_room(x, r));
        }
    }
    assert forall|x: usize, r1: Seq<char>, r2: Seq<char>| #[trigger]
        t.in_room(x, r1) && #[trigger] t.in_room(x, r2) implies r1 == r2 by {
        if x != id {
            assert(s.in_room(x, r1));
            assert(s.in_room(x, r2));
        }
    }
    assert forall|x: usize| #[trigger] t.has_session(x) implies exists|r: Seq<char>|
        t.in_room(x, r) by {
        if x == id {
            assert(t.in_room(x, room));
        } else {
            assert(s.has_session(x));
            let r = s.room_of(x);
            assert(s.in_room(x, r));
            assert(t.in_room(x, r));
        }
    }
    assert forall|x: usize| #[trigger] t.has_session(x) <==> t.ids.is_live(x) by {
        assert(s.has_session(x) <==> s.ids.is_live(x));
    }
    assert(t.rooms.dom() =~= s.rooms.dom().insert(room));
}

/// A broadcast changes nothing but the sequence counter.
pub proof fn lemma_broadcast<H>(s: ServerState<H>)
    requires
        s.wf(),
    ensures
        s.broadcast().wf(),
{
    let t = s.broadcast();
    assert forall|id: usize| #[trigger] t.has_session(id) <==> t.ids.is_live(id) by {
        assert(s.has_session(id) <==> s.ids.is_live(id));
    }
    assert forall|id: usize, room: Seq<char>| #[trigger] t.in_room(id, room) == s.in_room(
        id,
        room,
    ) by {}
    assert forall|id: usize| #[trigger] t.has_session(id) implies exists|room: Seq<char>|
        t.in_room(id, room) by {
        assert(s.has_session(id));
        assert(s.in_room(id, s.room_of(id)));
        assert(t.in_room(id, s.room_of(id)));
    }
}

/// An identifier that no session has is a member of no room: when it is
/// issued again, nothing is left of the session that had it before.
pub proof fn lemma_free_id_is_nowhere<H>(s: ServerState<H>, id: usize)
    requires
        s.wf(),
        !s.has_session(id),
    ensures
        forall|room: Seq<char>| !#[trigger] s.in_room(id, room),
{
    assert forall|room: Seq<char>| !#[trigger] s.in_room(id, room) by {
        if s.in_room(id, room) {
            assert(s.has_session(id));
        }
    }
}

/// A connected session is a member of exactly one room.
pub proof fn lemma_room_of<H>(s: ServerState<H>, id: usize)
    requires
        s.wf(),
        s.has_session(id),
    ensures
        s.in_room(id, s.room_of(id)),
        forall|room: Seq<char>| #[trigger] s.in_room(id, room) ==> room == s.room_of(id),
{
}

/// The state of a server that has just started meets the invariant.
pub proof fn lemma_init<H>()
    ensures
        ServerState::<H>::init().wf(),
        ServerState::<H>::init().rooms.dom() == Set::<Seq<char>>::empty().insert(main_room()),
{
    let s = ServerState::<H>::init();
    assert(s.rooms.dom() =~= Set::<Seq<char>>::empty().insert(main_room()));
}

} // verus!
