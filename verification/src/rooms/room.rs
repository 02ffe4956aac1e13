//! A chat room that users join to talk to each other.

use vstd::prelude::*;

verus! {

/// A room: its id, the ids of the clients in it and the id of the user who
/// created it.
#[derive(Debug)]
pub struct Room {
    pub id: String,
    pub clients: Vec<String>,
    pub creator: String,
}

impl Room {
    /// A room with no clients yet.
    pub fn new(id: String, creator: String) -> (room: Room)
        ensures
            room.id == id,
            room.creator == creator,
            room.clients@ == Seq::<String>::empty(),
    {
        Room { id, clients: Vec::new(), creator }
    }
}

} // verus!
