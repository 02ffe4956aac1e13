//! The list of rooms, in the order they were created.

use vstd::prelude::*;
use crate::rooms::room::Room;

verus! {

/// All rooms created so far, oldest first. Two rooms may share an id; a
/// lookup finds the oldest of them.
#[derive(Debug)]
pub struct RoomRegistry {
    pub rooms: Vec<Room>,
}

/// The position of the oldest room of `rooms` whose id reads `id`, if any.
pub open spec fn first_room_with_id(rooms: Seq<Room>, id: Seq<char>) -> Option<int>
    decreases rooms.len(),
{
    if rooms.len() == 0 {
        None
    } else if rooms[0].id@ == id {
        Some(0)
    } else {
        match first_room_with_id(rooms.drop_first(), id) {
            Some(i) => Some(i + 1),
            None => None,
        }
    }
}

/// `first_room_with_id` finds exactly the oldest room with the id, and finds
/// nothing only when no room has it.
pub proof fn lemma_first_room_with_id(rooms: Seq<Room>, id: Seq<char>)
    ensures
        match first_room_with_id(rooms, id) {
            Some(i) => {
                &&& 0 <= i < rooms.len()
                &&& rooms[i].id@ == id
                &&& forall|j: int| 0 <= j < i ==> rooms[j].id@ != id
            },
            None => forall|j: int| 0 <= j < rooms.len() ==> rooms[j].id@ != id,
        },
    decreases rooms.len(),
{
    if rooms.len() > 0 && rooms[0].id@ != id {
        let rest = rooms.drop_first();
        lemma_first_room_with_id(rest, id);
        match first_room_with_id(rest, id) {
            Some(i) => {
                assert forall|j: int| 0 <= j < i + 1 implies rooms[j].id@ != id by {
                    if j > 0 {
                        assert(rooms[j] == rest[j - 1]);
                    }
                }
            },
            None => {
                assert forall|j: int| 0 <= j < rooms.len() implies rooms[j].id@ != id by {
                    if j > 0 {
                        assert(rooms[j] == rest[j - 1]);
                    }
                }
            },
        }
    }
}

/// A room created under an id that no earlier room has is the one that a
/// lookup of that id finds.
pub proof fn law_created_room_is_found(rooms: Seq<Room>, room: Room)
    requires
        forall|j: int| 0 <= j < rooms.len() ==> rooms[j].id@ != room.id@,
    ensures
        first_room_with_id(rooms.push(room), room.id@) == Some(rooms.len() as int),
{
    let all = rooms.push(room);
    lemma_first_room_with_id(all, room.id@);
    match first_room_with_id(all, room.id@) {
        Some(i) => {
            if i < rooms.len() {
                assert(all[i] == rooms[i]);
            }
        },
        None => {
            assert(all[rooms.len() as int] == room);
        },
    }
}

/// Creating a room never hides an older room: a lookup of an id that an
/// older room has still finds that older room.
pub proof fn law_older_room_stays_found(rooms: Seq<Room>, room: Room, id: Seq<char>, i: int)
    requires
        first_room_with_id(rooms, id) == Some(i),
    ensures
        first_room_with_id(rooms.push(room), id) == Some(i),
{
    let all = rooms.push(room);
    lemma_first_room_with_id(rooms, id);
    lemma_first_room_with_id(all, id);
    assert(all[i] == rooms[i]);
    match first_room_with_id(all, id) {
        Some(k) => {
            if k < i {
                assert(all[k] == rooms[k]);
            }
        },
        None => {},
    }
}

impl RoomRegistry {
    /// A registry with no rooms.
    pub fn new() -> (registry: RoomRegistry)
        ensures
            registry.rooms@ == Seq::<Room>::empty(),
    {
        RoomRegistry { rooms: Vec::new() }
    }

    /// Creates an empty room after the others and returns it.
    pub fn create_room(&mut self, id: String, creator: String) -> (room: &Room)
        ensures
            final(self).rooms@.len() == old(self).rooms@.len() + 1,
            final(self).rooms@.drop_last() == old(self).rooms@,
            *room == final(self).rooms@.last(),
            room.id == id,
            room.creator == creator,
            room.clients@ == Seq::<String>::empty(),
    {
        let room = Room::new(id, creator);
        self.rooms.push(room);
        let last = self.rooms.len() - 1;
        &self.rooms[last]
    }

    /// The oldest room whose id reads `id`, if any.
    pub fn get_room(&self, id: &str) -> (found: Option<&Room>)
        ensures
            match first_room_with_id(self.rooms@, id@) {
                Some(i) => found == Some(&self.rooms@[i]),
                None => found is None,
            },
    {
        proof {
            lemma_first_room_with_id(self.rooms@, id@);
        }
        let key = id.to_owned();
        let mut i: usize = 0;
        while i < self.rooms.len()
            invariant
                i <= self.rooms.len(),
                key@ == id@,
                forall|j: int| 0 <= j < i ==> self.rooms@[j].id@ != id@,
                match first_room_with_id(self.rooms@, id@) {
                    Some(k) => {
                        &&& 0 <= k < self.rooms.len()
                        &&& self.rooms@[k].id@ == id@
                        &&& forall|j: int| 0 <= j < k ==> self.rooms@[j].id@ != id@
                    },
                    None => forall|j: int| 0 <= j < self.rooms.len() ==> self.rooms@[j].id@ != id@,
                },
            decreases self.rooms.len() - i,
        {
            if self.rooms[i].id == key {
                return Some(&self.rooms[i]);
            }
            i += 1;
        }
        None
    }
}

} // verus!
