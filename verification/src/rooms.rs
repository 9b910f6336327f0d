//! The room registry: each room with the sessions that are its members.
//!
//! A room comes into being when it is first named and is never dropped,
//! whether or not it has members.

use std::collections::HashSet;
use vstd::prelude::*;
use vstd::std_specs::hash::spec_hash_keys_iter;
use vstd::std_specs::iter::IteratorSpec;

verus! {

/// The members of `room`; none if there is no such room.
pub open spec fn members_of(rooms: Map<Seq<char>, Set<usize>>, room: Seq<char>) -> Set<usize> {
    if rooms.contains_key(room) {
        rooms[room]
    } else {
        Set::empty()
    }
}

/// A registry after `id` has been taken out of every room.
pub open spec fn vacated(rooms: Map<Seq<char>, Set<usize>>, id: usize) -> Map<
    Seq<char>,
    Set<usize>,
> {
    rooms.map_values(|m: Set<usize>| m.remove(id))
}

/// A registry after `id` has been put into `room`, which is created if
/// there is no such room.
pub open spec fn entered(rooms: Map<Seq<char>, Set<usize>>, id: usize, room: Seq<char>) -> Map<
    Seq<char>,
    Set<usize>,
> {
    rooms.insert(room, members_of(rooms, room).insert(id))
}

/// A registry in which `room` exists: it is created without members if
/// there is no such room.
pub open spec fn with_room(rooms: Map<Seq<char>, Set<usize>>, room: Seq<char>) -> Map<
    Seq<char>,
    Set<usize>,
> {
    rooms.insert(room, members_of(rooms, room))
}

/// `to` lists each of `members` once, and nobody else.
pub open spec fn is_fan_out(to: Seq<usize>, members: Set<usize>) -> bool {
    to.no_duplicates() && to.to_set() == members
}

/// `names` lists each room of the registry once, and nothing else.
pub open spec fn is_room_list(names: Seq<String>, rooms: Map<Seq<char>, Set<usize>>) -> bool {
    &&& forall|i: int| 0 <= i < names.len() ==> rooms.contains_key(#[trigger] names[i]@)
    &&& forall|room: Seq<char>|
        rooms.contains_key(room) ==> exists|i: int|
            0 <= i < names.len() && #[trigger] names[i]@ == room
    &&& forall|i: int, j: int| 0 <= i < j < names.len() ==> names[i]@ != names[j]@
}

/// A named group of sessions.
#[derive(Debug)]
struct Room {
    name: String,
    members: HashSet<usize>,
}

/// Room `i` of `rooms` has the name `name`.
spec fn named(rooms: Seq<Room>, i: int, name: Seq<char>) -> bool {
    0 <= i < rooms.len() && rooms[i].name@ == name
}

/// No two rooms have the same name.
spec fn distinct_names(rooms: Seq<Room>) -> bool {
    forall|i: int, j: int| 0 <= i < j < rooms.len() ==> rooms[i].name@ != rooms[j].name@
}

/// The registry that a list of rooms stands for.
spec fn registry(rooms: Seq<Room>) -> Map<Seq<char>, Set<usize>> {
    Map::new(
        |name: Seq<char>| exists|i: int| #[trigger] named(rooms, i, name),
        |name: Seq<char>| rooms[choose|i: int| #[trigger] named(rooms, i, name)].members@,
    )
}

/// The room stored at place `i` is found under its name.
proof fn lemma_registry_lookup(rooms: Seq<Room>, i: int)
    requires
        distinct_names(rooms),
        0 <= i < rooms.len(),
    ensures
        registry(rooms).contains_key(rooms[i].name@),
        registry(rooms)[rooms[i].name@] == rooms[i].members@,
{
    let name = rooms[i].name@;
    assert(named(rooms, i, name));
    let j = choose|j: int| #[trigger] named(rooms, j, name);
    assert(named(rooms, j, name));
    assert(j == i);
}

/// A name that no stored room has is not in the registry.
proof fn lemma_registry_absent(rooms: Seq<Room>, name: Seq<char>)
    requires
        forall|j: int| 0 <= j < rooms.len() ==> rooms[j].name@ != name,
    ensures
        !registry(rooms).contains_key(name),
{
    if registry(rooms).contains_key(name) {
        let j = choose|j: int| #[trigger] named(rooms, j, name);
        assert(named(rooms, j, name));
    }
}

/// A room of the registry is stored at some place.
proof fn lemma_registry_present(rooms: Seq<Room>, name: Seq<char>) -> (i: int)
    requires
        registry(rooms).contains_key(name),
    ensures
        named(rooms, i, name),
{
    choose|j: int| #[trigger] named(rooms, j, name)
}

/// Storing a room under a new name adds it to the registry.
proof fn lemma_registry_push(rooms: Seq<Room>, room: Room)
    requires
        distinct_names(rooms),
        forall|j: int| 0 <= j < rooms.len() ==> rooms[j].name@ != room.name@,
    ensures
        distinct_names(rooms.push(room)),
        registry(rooms.push(room)) == registry(rooms).insert(room.name@, room.members@),
{
    let after = rooms.push(room);
    assert(distinct_names(after));
    assert forall|name: Seq<char>|
        registry(after).contains_key(name) <==> (name == room.name@ || registry(
            rooms,
        ).contains_key(name)) by {
        if registry(after).contains_key(name) {
            let j = lemma_registry_present(after, name);
            if j < rooms.len() {
                assert(named(rooms, j, name));
            }
        }
        if name == room.name@ {
            assert(named(after, rooms.len() as int, name));
        }
        if registry(rooms).contains_key(name) {
            let j = lemma_registry_present(rooms, name);
            assert(named(after, j, name));
        }
    }
    assert forall|name: Seq<char>| registry(after).contains_key(name) implies registry(after)[name]
        == registry(rooms).insert(room.name@, room.members@)[name] by {
        let j = lemma_registry_present(after, name);
        lemma_registry_lookup(after, j);
        if j < rooms.len() {
            lemma_registry_lookup(rooms, j);
        }
    }
    assert(registry(after) =~= registry(rooms).insert(room.name@, room.members@));
}

/// Changing the members of the room at place `i` changes that room of the
/// registry and no other.
proof fn lemma_registry_update(before: Seq<Room>, after: Seq<Room>, i: int)
    requires
        distinct_names(before),
        0 <= i < before.len() == after.len(),
        forall|j: int| 0 <= j < before.len() ==> after[j].name@ == before[j].name@,
        forall|j: int| 0 <= j < before.len() && j != i ==> after[j].members@ == before[j].members@,
    ensures
        distinct_names(after),
        registry(after) == registry(before).insert(before[i].name@, after[i].members@),
{
    assert(distinct_names(after));
    assert forall|name: Seq<char>|
        registry(after).contains_key(name) <==> registry(before).contains_key(name) by {
        if registry(after).contains_key(name) {
            let j = lemma_registry_present(after, name);
            assert(named(before, j, name));
        }
        if registry(before).contains_key(name) {
            let j = lemma_registry_present(before, name);
            assert(named(after, j, name));
        }
    }
    lemma_registry_lookup(before, i);
    assert forall|name: Seq<char>| registry(after).contains_key(name) implies registry(after)[name]
        == registry(before).insert(before[i].name@, after[i].members@)[name] by {
        let j = lemma_registry_present(after, name);
        lemma_registry_lookup(after, j);
        lemma_registry_lookup(before, j);
    }
    assert(registry(after) =~= registry(before).insert(before[i].name@, after[i].members@));
}

/// Taking `id` out of every stored room takes it out of every room of the
/// registry.
proof fn lemma_registry_vacated(before: Seq<Room>, after: Seq<Room>, id: usize)
    requires
        distinct_names(before),
        before.len() == after.len(),
        forall|j: int| 0 <= j < before.len() ==> after[j].name@ == before[j].name@,
        forall|j: int|
            0 <= j < before.len() ==> after[j].members@ == before[j].members@.remove(id),
    ensures
        distinct_names(after),
        registry(after) == vacated(registry(before), id),
{
    assert(distinct_names(after));
    assert forall|name: Seq<char>|
        registry(after).contains_key(name) <==> registry(before).contains_key(name) by {
        if registry(after).contains_key(name) {
            let j = lemma_registry_present(after, name);
            assert(named(before, j, name));
        }
        if registry(before).contains_key(name) {
            let j = lemma_registry_present(before, name);
            assert(named(after, j, name));
        }
    }
    assert forall|name: Seq<char>| registry(after).contains_key(name) implies registry(after)[name]
        == vacated(registry(before), id)[name] by {
        let j = lemma_registry_present(after, name);
        lemma_registry_lookup(after, j);
        lemma_registry_lookup(before, j);
    }
    assert(registry(after) =~= vacated(registry(before), id));
}

/// The rooms of a chat server.
#[derive(Debug)]
pub struct Rooms {
    list: Vec<Room>,
}

impl View for Rooms {
    type V = Map<Seq<char>, Set<usize>>;

    closed spec fn view(&self) -> Map<Seq<char>, Set<usize>> {
        registry(self.list@)
    }
}

impl Rooms {
    /// Every room is stored once.
    pub closed spec fn wf(&self) -> bool {
        distinct_names(self.list@)
    }

    /// A registry without rooms.
    pub fn new() -> (rooms: Rooms)
        ensures
            rooms.wf(),
            rooms@ == Map::<Seq<char>, Set<usize>>::empty(),
    {
        let rooms = Rooms { list: Vec::new() };
        proof {
            assert forall|name: Seq<char>| !rooms@.contains_key(name) by {
                lemma_registry_absent(rooms.list@, name);
            }
            assert(rooms@ =~= Map::<Seq<char>, Set<usize>>::empty());
        }
        rooms
    }

    /// The place of the room of this name, if there is one.
    fn find(&self, name: &String) -> (found: Option<usize>)
        ensures
            found matches Some(i) ==> i < self.list.len() && self.list[i as int].name@ == name@,
            found is None ==> forall|j: int|
                0 <= j < self.list.len() ==> self.list[j].name@ != name@,
    {
        let mut i: usize = 0;
        while i < self.list.len()
            invariant
                i <= self.list.len(),
                forall|j: int| 0 <= j < i ==> self.list[j].name@ != name@,
            decreases self.list.len() - i,
        {
            if self.list[i].name == *name {
                return Some(i);
            }
            i += 1;
        }
        None
    }

    /// The place of the room of this name, which is created without
    /// members if there is no such room.
    fn entry(&mut self, name: &String) -> (i: usize)
        requires
            old(self).wf(),
        ensures
            final(self).wf(),
            i < final(self).list.len(),
            final(self).list[i as int].name@ == name@,
            final(self)@ == with_room(old(self)@, name@),
    {
        match self.find(name) {
            Some(i) => {
                proof {
                    lemma_registry_lookup(self.list@, i as int);
                    assert(self@ =~= with_room(self@, name@));
                }
                i
            },
            None => {
                let room = Room { name: name.clone(), members: HashSet::new() };
                proof {
                    lemma_registry_absent(self.list@, name@);
                    lemma_registry_push(self.list@, room);
                }
                self.list.push(room);
                self.list.len() - 1
            },
        }
    }

    /// Makes sure that there is a room of this name.
    pub fn create(&mut self, name: &String)
        requires
            old(self).wf(),
        ensures
            final(self).wf(),
            final(self)@ == with_room(old(self)@, name@),
    {
        let _ = self.entry(name);
    }

    /// Puts session `id` into the room of this name, which is created if
    /// there is no such room.
    pub fn enter(&mut self, name: &String, id: usize)
        requires
            old(self).wf(),
        ensures
            final(self).wf(),
            final(self)@ == entered(old(self)@, id, name@),
    {
        broadcast use vstd::std_specs::hash::group_hash_axioms;

        let ghost start = self@;
        let i = self.entry(name);
        let ghost before = self.list@;
        self.list[i].members.insert(id);
        proof {
            lemma_registry_update(before, self.list@, i as int);
            lemma_registry_lookup(before, i as int);
            assert(self@ =~= entered(start, id, name@));
        }
    }

    /// Takes session `id` out of every room and returns the names of the
    /// rooms that it was a member of, each once.
    pub fn leave_all(&mut self, id: usize) -> (left: Vec<String>)
        requires
            old(self).wf(),
        ensures
            final(self).wf(),
            final(self)@ == vacated(old(self)@, id),
            forall|k: int|
                0 <= k < left.len() ==> old(self)@.contains_key(#[trigger] left[k]@) && old(
                    self,
                )@[left[k]@].contains(id),
            forall|room: Seq<char>|
                old(self)@.contains_key(room) && old(self)@[room].contains(id) ==> exists|k: int|
                    0 <= k < left.len() && #[trigger] left[k]@ == room,
            forall|k1: int, k2: int| 0 <= k1 < k2 < left.len() ==> left[k1]@ != left[k2]@,
    {
        broadcast use vstd::std_specs::hash::group_hash_axioms;

        let mut left: Vec<String> = Vec::new();
        let ghost mut places: Seq<int> = Seq::empty();
        let mut i: usize = 0;
        while i < self.list.len()
            invariant
                i <= self.list.len(),
                self.list.len() == old(self).list.len(),
                forall|j: int|
                    0 <= j < self.list.len() ==> self.list[j].name@ == old(self).list[j].name@,
                forall|j: int|
                    0 <= j < i ==> self.list[j].members@ == old(self).list[j].members@.remove(id),
                forall|j: int|
                    i <= j < self.list.len() ==> self.list[j].members@ == old(
                        self,
                    ).list[j].members@,
                places.len() == left.len(),
                forall|k: int|
                    0 <= k < places.len() ==> 0 <= #[trigger] places[k] < i && left[k]@ == old(
                        self,
                    ).list[places[k]].name@ && old(self).list[places[k]].members@.contains(id),
                forall|k1: int, k2: int|
                    0 <= k1 < k2 < places.len() ==> places[k1] < places[k2],
                forall|j: int|
                    0 <= j < i && old(self).list[j].members@.contains(id) ==> exists|k: int|
                        0 <= k < places.len() && #[trigger] places[k] == j,
            decreases self.list.len() - i,
        {
            let ghost before = places;
            if self.list[i].members.remove(&id) {
                left.push(self.list[i].name.clone());
                proof {
                    places = places.push(i as int);
                }
            }
            proof {
                assert forall|j: int|
                    0 <= j < i + 1 && old(self).list[j].members@.contains(id) implies exists|
                    k: int,
                | 0 <= k < places.len() && #[trigger] places[k] == j by {
                    if j < i {
                        let k = choose|k: int| 0 <= k < before.len() && #[trigger] before[k] == j;
                        assert(places[k] == j);
                    } else {
                        assert(places[places.len() - 1] == j);
                    }
                }
            }
            i += 1;
        }
        proof {
            let start = old(self).list@;
            lemma_registry_vacated(start, self.list@, id);
            assert forall|k: int| 0 <= k < left.len() implies registry(start).contains_key(
                #[trigger] left[k]@,
            ) && registry(start)[left[k]@].contains(id) by {
                lemma_registry_lookup(start, places[k]);
            }
            assert forall|room: Seq<char>|
                registry(start).contains_key(room) && registry(start)[room].contains(
                    id,
                ) implies exists|k: int| 0 <= k < left.len() && #[trigger] left[k]@ == room by {
                let j = lemma_registry_present(start, room);
                lemma_registry_lookup(start, j);
                let k = choose|k: int| 0 <= k < places.len() && #[trigger] places[k] == j;
                assert(left[k]@ == room);
            }
            assert forall|k1: int, k2: int| 0 <= k1 < k2 < left.len() implies left[k1]@
                != left[k2]@ by {
                assert(places[k1] < places[k2]);
            }
        }
        left
    }

    /// The members of a room, each once, in no particular order; none if
    /// there is no such room.
    pub fn members(&self, name: &String) -> (to: Vec<usize>)
        requires
            self.wf(),
        ensures
            is_fan_out(to@, members_of(self@, name@)),
    {
        broadcast use vstd::std_specs::hash::group_hash_axioms;

        let mut to: Vec<usize> = Vec::new();
        match self.find(name) {
            Some(i) => {
                proof {
                    lemma_registry_lookup(self.list@, i as int);
                }
                let members = &self.list[i].members;
                let ghost keys = spec_hash_keys_iter(members).remaining();
                for id in it: members.iter()
                    invariant
                        it.seq() == keys,
                        to@.len() == it.index(),
                        forall|j: int| 0 <= j < to@.len() ==> to@[j] == *keys[j],
                {
                    to.push(*id);
                }
                proof {
                    assert(to@ =~= keys.unref());
                    assert forall|a: int, b: int|
                        0 <= a < to@.len() && 0 <= b < to@.len() && a != b implies to@[a]
                        != to@[b] by {
                        assert(keys[a] != keys[b]);
                    }
                }
            },
            None => {
                proof {
                    lemma_registry_absent(self.list@, name@);
                    assert(to@.to_set() =~= Set::<usize>::empty());
                }
            },
        }
        to
    }

    /// The names of the rooms, each once, in no particular order.
    pub fn names(&self) -> (names: Vec<String>)
        requires
            self.wf(),
        ensures
            is_room_list(names@, self@),
    {
        let mut names: Vec<String> = Vec::new();
        let mut i: usize = 0;
        while i < self.list.len()
            invariant
                i <= self.list.len(),
                names.len() == i,
                forall|j: int| 0 <= j < i ==> #[trigger] names[j]@ == self.list[j].name@,
            decreases self.list.len() - i,
        {
            names.push(self.list[i].name.clone());
            i += 1;
        }
        proof {
            assert forall|i: int| 0 <= i < names.len() implies self@.contains_key(
                #[trigger] names[i]@,
            ) by {
                lemma_registry_lookup(self.list@, i);
            }
            assert forall|room: Seq<char>| self@.contains_key(room) implies exists|i: int|
                0 <= i < names.len() && #[trigger] names[i]@ == room by {
                let j = lemma_registry_present(self.list@, room);
                assert(names[j]@ == room);
            }
        }
        names
    }
}

} // verus!
