//! The chat server: session directory, room registry and sequence counter.
//!
//! The server is driven by commands, one at a time. It changes its own
//! state and hands back notices: what has to be written to the log and
//! which text has to be pushed to which sessions. Pushing and writing are
//! left to the caller, so that nothing here waits for a socket or a disk.

use std::collections::HashMap;
use vstd::prelude::*;
use vstd::string::StringExecFns;
use crate::id::Allocator;
use crate::model::{
    lemma_broadcast, lemma_connect, lemma_disconnect, lemma_init, lemma_join, lemma_room_of,
    main_room, NoticeView, ServerState,
};
use crate::rooms::{is_fan_out, is_room_list, Rooms};
use crate::sql::{ChatRecord, TableRow};
use crate::status::Status;
use crate::wire::{joined_notice, joined_text, left_notice, left_text};

verus! {

/// The text that the server pushes to a session.
#[derive(Debug)]
pub struct Message(pub String);

/// A new session asks to be registered; `addr` is the handle through which
/// it is reached.
#[derive(Debug)]
pub struct Connect<H> {
    /// Handle of the session.
    pub addr: H,
}

/// A session has gone.
#[derive(Debug)]
pub struct Disconnect {
    /// Identifier of the session.
    pub id: usize,
}

/// A session sends a message to a room.
#[derive(Debug)]
pub struct ClientMessage {
    /// Identifier of the sending session.
    pub id: usize,
    /// Name of the room.
    pub room_name: String,
    /// Content of the message.
    pub content: String,
    /// Name of the sender.
    pub name: String,
    /// Wall-clock time, as the client gave it.
    pub time: String,
}

/// Asks for the names of the rooms.
#[derive(Debug)]
pub struct ListRooms;

/// A session moves to a room, which is created if it does not exist.
#[derive(Debug)]
pub struct Join {
    /// Identifier of the session.
    pub id: usize,
    /// Name of the room.
    pub room_name: String,
}

/// What the caller has to do after a command: write the record to the log,
/// if there is one, and then push the message to each of the sessions
/// listed, whether or not the push to another one succeeds.
#[derive(Debug)]
pub struct Notice {
    /// The record to write to the log before anything is pushed.
    pub record: Option<TableRow>,
    /// The text to push.
    pub message: Message,
    /// The sessions to push it to, each once.
    pub to: Vec<usize>,
}

/// The model of the record of a notice, if it has one.
pub open spec fn record_view(record: Option<TableRow>) -> Option<ChatRecord> {
    match record {
        Some(row) => Some(row@),
        None => None,
    }
}

impl View for Notice {
    type V = NoticeView;

    open spec fn view(&self) -> NoticeView {
        NoticeView { record: record_view(self.record), message: self.message.0@, to: self.to@ }
    }
}

/// The coordinator of the chat: it owns the session directory, the room
/// registry, the identifiers and the sequence counter.
#[derive(Debug)]
pub struct ChatServer<H> {
    sessions: HashMap<usize, H>,
    rooms: Rooms,
    id_allocator: Allocator,
    timestamp: usize,
}

impl<H> View for ChatServer<H> {
    type V = ServerState<H>;

    closed spec fn view(&self) -> ServerState<H> {
        ServerState {
            sessions: self.sessions@,
            rooms: self.rooms@,
            ids: self.id_allocator@,
            clock: self.timestamp as nat,
        }
    }
}

impl<H> ChatServer<H> {
    /// The room registry is well formed.
    pub closed spec fn rooms_wf(&self) -> bool {
        self.rooms.wf()
    }

    /// The invariant of the server.
    pub open spec fn wf(&self) -> bool {
        self.rooms_wf() && self@.wf()
    }

    /// A server without sessions, with the main room.
    pub fn new() -> (server: ChatServer<H>)
        ensures
            server.wf(),
            server@ == ServerState::<H>::init(),
    {
        // default room
        let mut rooms = Rooms::new();
        rooms.create(&String::from_str("main"));

        let server = ChatServer {
            sessions: HashMap::new(),
            rooms,
            id_allocator: Allocator::new(),
            timestamp: 0,
        };
        proof {
            lemma_init::<H>();
            assert(server@.sessions =~= ServerState::<H>::init().sessions);
        }
        server
    }

    /// Whether session `id` is connected.
    pub fn has_session(&self, id: usize) -> (b: bool)
        ensures
            b == self@.has_session(id),
    {
        broadcast use vstd::std_specs::hash::group_hash_axioms;

        self.sessions.contains_key(&id)
    }

    /// The handle of session `id`.
    pub fn session(&self, id: usize) -> (handle: Option<&H>)
        ensures
            handle is Some == self@.has_session(id),
            handle matches Some(h) ==> *h == self@.sessions[id],
    {
        broadcast use vstd::std_specs::hash::group_hash_axioms;

        self.sessions.get(&id)
    }

    /// The sequence number of the latest record.
    pub fn timestamp(&self) -> (n: usize)
        ensures
            n == self@.clock,
    {
        self.timestamp
    }

    /// Whether one more session can connect: not every identifier is in
    /// use.
    pub fn can_connect(&self) -> (b: bool)
        ensures
            b == self@.ids.can_acquire(),
    {
        self.id_allocator.can_get()
    }

    /// The notice that sends `content` to all members of a room.
    fn send_for_all(&self, room_name: &String, record: Option<TableRow>, content: String) -> (notice:
        Notice)
        requires
            self.rooms_wf(),
        ensures
            notice@.message == content@,
            notice@.record == record_view(record),
            is_fan_out(notice@.to, self@.members(room_name@)),
    {
        let to = self.rooms.members(room_name);
        Notice { record, message: Message(content), to }
    }

    /// Issues the next sequence number.
    fn stamp(&mut self) -> (n: usize)
        requires
            old(self).timestamp < usize::MAX,
        ensures
            n == old(self).timestamp + 1,
            final(self).timestamp == n,
            final(self).sessions == old(self).sessions,
            final(self).rooms == old(self).rooms,
            final(self).id_allocator == old(self).id_allocator,
    {
        self.timestamp += 1;
        self.timestamp
    }

    /// Registers a new session.
    ///
    /// The members of the main room are told that someone joined, then the
    /// session gets an identifier, enters the directory and becomes a
    /// member of the main room: it is not told of its own arrival. The
    /// identifier is at least one and belongs to no other session.
    pub fn connect(&mut self, msg: Connect<H>) -> (out: (usize, Vec<Notice>))
        requires
            old(self).wf(),
            old(self)@.ids.can_acquire(),
        ensures
            final(self).wf(),
            final(self)@ == old(self)@.connect(msg.addr),
            out.0 == old(self)@.ids.next_id(),
            out.0 >= 1,
            !old(self)@.has_session(out.0),
            final(self)@.has_session(out.0),
            final(self)@.in_room(out.0, main_room()),
            out.1@.len() == 1,
            out.1@[0]@.plain("someone joined"@, old(self)@.members(main_room())),
    {
        broadcast use vstd::std_specs::hash::group_hash_axioms;

        let ghost start = self@;
        let ghost addr = msg.addr;
        proof {
            lemma_connect(start, addr);
        }
        // notify all users in the main room
        let main = String::from_str("main");
        let notice = self.send_for_all(&main, None, String::from_str("someone joined"));
        let mut notices: Vec<Notice> = Vec::new();
        notices.push(notice);

        // register the session
        let id = self.id_allocator.get();
        self.sessions.insert(id, msg.addr);

        // auto join session to main room
        self.rooms.enter(&main, id);
        proof {
            assert(self@ == start.connect(addr));
        }
        (id, notices)
    }

    /// Removes a session.
    ///
    /// Its identifier is released, it leaves the directory and its room,
    /// and the members that stay in that room are told that someone
    /// disconnected. For an identifier that no session has, nothing
    /// happens.
    pub fn disconnect(&mut self, msg: Disconnect) -> (out: Vec<Notice>)
        requires
            old(self).wf(),
        ensures
            final(self).wf(),
            final(self)@ == old(self)@.disconnect(msg.id),
            !old(self)@.has_session(msg.id) ==> out@.len() == 0,
            old(self)@.has_session(msg.id) ==> out@.len() == 1 && out@[0]@.plain(
                "someone disconnected"@,
                old(self)@.members(old(self)@.room_of(msg.id)).remove(msg.id),
            ),
    {
        broadcast use vstd::std_specs::hash::group_hash_axioms;

        let ghost start = self@;
        let id = msg.id;
        let mut notices: Vec<Notice> = Vec::new();
        proof {
            lemma_disconnect(start, id);
        }
        if self.sessions.contains_key(&id) {
            proof {
                lemma_room_of(start, id);
            }
            self.id_allocator.remove(id);

            // remove address
            self.sessions.remove(&id);

            // remove session from all rooms
            let left = self.rooms.leave_all(id);
            proof {
                assert(self@.sessions =~= start.sessions.remove(id));
                assert(self@ == start.disconnect(id));
                let home = start.room_of(id);
                assert(start.in_room(id, home));
                let k = choose|k: int| 0 <= k < left.len() && #[trigger] left[k]@ == home;
                assert forall|k: int| 0 <= k < left.len() implies #[trigger] left[k]@ == home by {
                    assert(start.in_room(id, left[k]@));
                }
                if left.len() > 1 {
                    assert(left[0]@ != left[1]@);
                }
                assert(left.len() == 1);
                assert(self@.members(home) =~= start.members(home).remove(id));
            }

            // send message to other users
            let mut k: usize = 0;
            while k < left.len()
                invariant
                    k <= left.len() == 1,
                    self.rooms_wf(),
                    self@ == start.disconnect(id),
                    left[0]@ == start.room_of(id),
                    self@.members(start.room_of(id)) == start.members(start.room_of(id)).remove(id),
                    notices@.len() == k,
                    k == 1 ==> notices@[0]@.plain(
                        "someone disconnected"@,
                        start.members(start.room_of(id)).remove(id),
                    ),
                decreases left.len() - k,
            {
                let notice = self.send_for_all(
                    &left[k],
                    None,
                    String::from_str("someone disconnected"),
                );
                notices.push(notice);
                k += 1;
            }
        }
        notices
    }

    /// Sends a message to a room.
    ///
    /// The message gets the next sequence number and becomes a record,
    /// which is to be logged and then pushed, as JSON, to every member of
    /// the room, the sender included if it is one. Which sessions are
    /// listed depends on the room alone, not on whether any of them can
    /// still be reached.
    pub fn broadcast(&mut self, msg: ClientMessage) -> (out: Vec<Notice>)
        requires
            old(self).wf(),
            old(self)@.clock < usize::MAX,
        ensures
            final(self).wf(),
            final(self)@ == old(self)@.broadcast(),
            out@.len() == 1,
            out@[0]@.carries(
                (ChatRecord {
                    name: msg.name@,
                    timestamp: (old(self)@.clock + 1) as usize,
                    content: msg.content@,
                    time: msg.time@,
                    status: Status::Normal.spec_code(),
                }),
                old(self)@.members(msg.room_name@),
            ),
    {
        let ghost start = self@;
        let seq = self.stamp();
        let row = TableRow::new(msg.name, seq, msg.content, msg.time, Status::Normal.code());
        let text = row.to_msg();
        let notice = self.send_for_all(&msg.room_name, Some(row), text);
        let mut notices: Vec<Notice> = Vec::new();
        notices.push(notice);
        proof {
            lemma_broadcast(start);
            assert(self@ == start.broadcast());
        }
        notices
    }

    /// The names of the rooms, each once, in no particular order. The
    /// main room is always among them.
    pub fn list_rooms(&self, msg: ListRooms) -> (names: Vec<String>)
        requires
            self.wf(),
        ensures
            is_room_list(names@, self@.rooms),
            exists|i: int| 0 <= i < names.len() && #[trigger] names[i]@ == main_room(),
    {
        self.rooms.names()
    }

    /// Moves a session to a room.
    ///
    /// The session leaves the room it is in; a record that it has
    /// disconnected is made for those who stay there. It enters the room
    /// asked for, which is created if need be; a record that it has
    /// connected is made for the members of that room, the session itself
    /// among them. The first record has the lower sequence number. The
    /// two times are the wall-clock times to put on the two records.
    pub fn join(&mut self, msg: Join, left_at: String, joined_at: String) -> (out: Vec<Notice>)
        requires
            old(self).wf(),
            old(self)@.has_session(msg.id),
            old(self)@.clock + 2 <= usize::MAX,
        ensures
            final(self).wf(),
            final(self)@ == old(self)@.join(msg.id, msg.room_name@),
            out@.len() == 2,
            out@[0]@.carries(
                (ChatRecord {
                    name: "system"@,
                    timestamp: (old(self)@.clock + 1) as usize,
                    content: left_text(msg.id),
                    time: left_at@,
                    status: Status::Disconnected.spec_code(),
                }),
                old(self)@.members(old(self)@.room_of(msg.id)).remove(msg.id),
            ),
            out@[1]@.carries(
                (ChatRecord {
                    name: "system"@,
                    timestamp: (old(self)@.clock + 2) as usize,
                    content: joined_text(msg.id),
                    time: joined_at@,
                    status: Status::Connected.spec_code(),
                }),
                final(self)@.members(msg.room_name@),
            ),
            forall|room: Seq<char>|
                #[trigger] final(self)@.in_room(msg.id, room) <==> room == msg.room_name@,
    {
        broadcast use vstd::std_specs::hash::group_hash_axioms;

        let ghost start = self@;
        let Join { id, room_name } = msg;
        let mut notices: Vec<Notice> = Vec::new();
        proof {
            lemma_join(start, id, room_name@);
            lemma_room_of(start, id);
        }
        let ghost home = start.room_of(id);

        // remove session from all rooms
        let left = self.rooms.leave_all(id);
        proof {
            assert(start.in_room(id, home));
            let k = choose|k: int| 0 <= k < left.len() && #[trigger] left[k]@ == home;
            assert forall|k: int| 0 <= k < left.len() implies #[trigger] left[k]@ == home by {
                assert(start.in_room(id, left[k]@));
            }
            if left.len() > 1 {
                assert(left[0]@ != left[1]@);
            }
            assert(left.len() == 1);
            assert(self@.members(home) =~= start.members(home).remove(id));
        }

        let seq_left = self.stamp();
        let row_left = TableRow::new(
            String::from_str("system"),
            seq_left,
            left_notice(id),
            left_at,
            Status::Disconnected.code(),
        );
        let text_left = row_left.to_msg();

        // send message to other users
        let mut to_left: Vec<usize> = Vec::new();
        let mut k: usize = 0;
        while k < left.len()
            invariant
                k <= left.len() == 1,
                self.rooms_wf(),
                left[0]@ == home,
                self@.members(home) == start.members(home).remove(id),
                k == 0 ==> to_left@.len() == 0,
                k == 1 ==> is_fan_out(to_left@, start.members(home).remove(id)),
            decreases left.len() - k,
        {
            let mut part = self.rooms.members(&left[k]);
            let ghost listed = part@;
            to_left.append(&mut part);
            assert(to_left@ =~= listed);
            k += 1;
        }
        notices.push(Notice { record: Some(row_left), message: Message(text_left), to: to_left });

        self.rooms.enter(&room_name, id);

        let seq_joined = self.stamp();
        let row_joined = TableRow::new(
            String::from_str("system"),
            seq_joined,
            joined_notice(id),
            joined_at,
            Status::Connected.code(),
        );
        let text_joined = row_joined.to_msg();
        let notice = self.send_for_all(&room_name, Some(row_joined), text_joined);
        notices.push(notice);
        proof {
            assert(self@ == start.join(id, room_name@));
        }
        notices
    }
}

} // verus!
