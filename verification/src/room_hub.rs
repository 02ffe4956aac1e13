//! The live rooms of the websocket server: which clients are in which room,
//! and the channel through which each client receives the room's messages.
//!
//! A room is known by its name. Each client that joins gets the next client
//! id and a fresh channel; a message broadcast to a room is handed to the
//! channel of every client in it. When the last client leaves, the room is
//! dropped.
//!
//! The rooms are kept in a list rather than a hash map: their keys are
//! strings, for which vstd gives no hash map whose entries can be changed in
//! place. Each room's clients are a list too: a broadcast must reach every
//! client's sender through a mutable borrow, and vstd's maps offer no way to
//! visit every value mutably. Both lists keep their keys distinct, so each is
//! seen as a map (see the `View` of `AppState`).

use vstd::prelude::*;
use crate::channel::{open_client_channel, ClientReceiver, ClientSender};

verus! {

/// A client of a room: its id and the sending half of its channel.
struct ClientSlot {
    id: usize,
    tx: ClientSender,
}

/// A room: its name and its clients.
struct RoomSlot {
    name: String,
    clients: Vec<ClientSlot>,
}

/// The rooms of the server and the id that the next client to join gets.
pub struct AppState {
    rooms: Vec<RoomSlot>,
    next_client_id: usize,
}

/// The clients of a room: each client id, mapped to the sending half of the
/// client's channel.
pub type RoomClients = Map<usize, ClientSender>;

/// The rooms as seen from outside: each room's name, mapped to its clients.
pub type RoomsModel = Map<Seq<char>, RoomClients>;

/// Every room holds finitely many clients.
pub open spec fn rooms_finite(rooms: RoomsModel) -> bool {
    forall|room: Seq<char>| #[trigger] rooms.contains_key(room) ==> rooms[room].dom().finite()
}

/// The model after `client`, with the sender `tx`, joins the existing room `room`.
pub open spec fn after_join(
    rooms: RoomsModel,
    room: Seq<char>,
    client: usize,
    tx: ClientSender,
) -> RoomsModel {
    rooms.insert(room, rooms[room].insert(client, tx))
}

/// The model after `client` leaves `room`: the client is gone from the room,
/// and a room left with no client is gone too. A room that does not exist is
/// left alone.
pub open spec fn after_leave(rooms: RoomsModel, room: Seq<char>, client: usize) -> RoomsModel {
    if !rooms.contains_key(room) {
        rooms
    } else {
        let left = rooms[room].remove(client);
        if left == RoomClients::empty() {
            rooms.remove(room)
        } else {
            rooms.insert(room, left)
        }
    }
}

/// What handing `message` over does to a sender.
pub open spec fn handing(message: Seq<char>) -> spec_fn(ClientSender) -> ClientSender {
    |tx: ClientSender| tx.after_handing(message)
}

/// The model after `message` is broadcast to `room`: the message is handed
/// once to the sender of every client of the room; nothing else changes. A
/// room that does not exist is left alone.
pub open spec fn after_broadcast(rooms: RoomsModel, room: Seq<char>, message: Seq<char>) -> RoomsModel {
    if rooms.contains_key(room) {
        rooms.insert(room, rooms[room].map_values(handing(message)))
    } else {
        rooms
    }
}

/// The id handed out after `id`: one more, wrapping around at the top of the
/// range as an atomic counter does.
pub open spec fn next_id_after(id: usize) -> usize {
    vstd::wrapping::usize_specs::wrapping_add(id, 1)
}

// ---- Lists of items with distinct keys, seen as maps --------------------

spec fn keys_distinct<T, K>(s: Seq<T>, key: spec_fn(T) -> K) -> bool {
    forall|i: int, j: int| 0 <= i < s.len() && 0 <= j < s.len() && i != j ==> key(s[i]) != key(s[j])
}

spec fn has_key<T, K>(s: Seq<T>, key: spec_fn(T) -> K, k: K) -> bool {
    exists|i: int| 0 <= i < s.len() && key(s[i]) == k
}

spec fn key_pos<T, K>(s: Seq<T>, key: spec_fn(T) -> K, k: K) -> int {
    choose|i: int| 0 <= i < s.len() && key(s[i]) == k
}

spec fn keyed_map<T, K, V>(s: Seq<T>, key: spec_fn(T) -> K, val: spec_fn(T) -> V) -> Map<K, V> {
    Map::new(|k: K| has_key(s, key, k), |k: K| val(s[key_pos(s, key, k)]))
}

proof fn lemma_keyed_at<T, K, V>(s: Seq<T>, key: spec_fn(T) -> K, val: spec_fn(T) -> V, i: int)
    requires
        keys_distinct(s, key),
        0 <= i < s.len(),
    ensures
        keyed_map(s, key, val).contains_key(key(s[i])),
        keyed_map(s, key, val)[key(s[i])] == val(s[i]),
{
    let k = key(s[i]);
    assert(has_key(s, key, k));
    let p = key_pos(s, key, k);
    assert(key(s[p]) == k);
}

proof fn lemma_keyed_update<T, K, V>(
    s: Seq<T>,
    key: spec_fn(T) -> K,
    val: spec_fn(T) -> V,
    i: int,
    x: T,
)
    requires
        keys_distinct(s, key),
        0 <= i < s.len(),
        key(x) == key(s[i]),
    ensures
        keys_distinct(s.update(i, x), key),
        keyed_map(s.update(i, x), key, val) == keyed_map(s, key, val).insert(key(x), val(x)),
{
    let t = s.update(i, x);
    let nv = keyed_map(t, key, val);
    let ov = keyed_map(s, key, val).insert(key(x), val(x));
    assert(keys_distinct(t, key)) by {
        assert forall|a: int, b: int|
            0 <= a < t.len() && 0 <= b < t.len() && a != b implies key(t[a]) != key(t[b]) by {
            if a != i {
                assert(t[a] == s[a]);
            }
            if b != i {
                assert(t[b] == s[b]);
            }
        }
    }
    assert forall|k: K| nv.contains_key(k) <==> ov.contains_key(k) by {
        if has_key(t, key, k) {
            let j = choose|j: int| 0 <= j < t.len() && key(t[j]) == k;
            if j != i {
                assert(s[j] == t[j]);
            }
            lemma_keyed_at(s, key, val, j);
        }
        if has_key(s, key, k) {
            let j = choose|j: int| 0 <= j < s.len() && key(s[j]) == k;
            if j != i {
                assert(s[j] == t[j]);
            }
            lemma_keyed_at(t, key, val, j);
        }
        if k == key(x) {
            lemma_keyed_at(t, key, val, i);
        }
    }
    assert forall|k: K| nv.contains_key(k) implies nv[k] == ov[k] by {
        let j = choose|j: int| 0 <= j < t.len() && key(t[j]) == k;
        lemma_keyed_at(t, key, val, j);
        if j != i {
            assert(s[j] == t[j]);
            lemma_keyed_at(s, key, val, j);
        }
    }
    assert(nv =~= ov);
}

proof fn lemma_keyed_push<T, K, V>(s: Seq<T>, key: spec_fn(T) -> K, val: spec_fn(T) -> V, x: T)
    requires
        keys_distinct(s, key),
        !keyed_map(s, key, val).contains_key(key(x)),
    ensures
        keys_distinct(s.push(x), key),
        keyed_map(s.push(x), key, val) == keyed_map(s, key, val).insert(key(x), val(x)),
{
    let t = s.push(x);
    let n = s.len() as int;
    let nv = keyed_map(t, key, val);
    let ov = keyed_map(s, key, val).insert(key(x), val(x));
    assert(keys_distinct(t, key)) by {
        assert forall|a: int, b: int|
            0 <= a < t.len() && 0 <= b < t.len() && a != b implies key(t[a]) != key(t[b]) by {
            if a == n {
                assert(t[b] == s[b]);
                if key(s[b]) == key(x) {
                    lemma_keyed_at(s, key, val, b);
                }
            } else if b == n {
                assert(t[a] == s[a]);
                if key(s[a]) == key(x) {
                    lemma_keyed_at(s, key, val, a);
                }
            } else {
                assert(t[a] == s[a]);
                assert(t[b] == s[b]);
            }
        }
    }
    assert forall|k: K| nv.contains_key(k) <==> ov.contains_key(k) by {
        if has_key(t, key, k) {
            let j = choose|j: int| 0 <= j < t.len() && key(t[j]) == k;
            if j != n {
                assert(s[j] == t[j]);
                lemma_keyed_at(s, key, val, j);
            }
        }
        if has_key(s, key, k) {
            let j = choose|j: int| 0 <= j < s.len() && key(s[j]) == k;
            assert(s[j] == t[j]);
            lemma_keyed_at(t, key, val, j);
        }
        if k == key(x) {
            lemma_keyed_at(t, key, val, n);
        }
    }
    assert forall|k: K| nv.contains_key(k) implies nv[k] == ov[k] by {
        let j = choose|j: int| 0 <= j < t.len() && key(t[j]) == k;
        lemma_keyed_at(t, key, val, j);
        if j != n {
            assert(s[j] == t[j]);
            lemma_keyed_at(s, key, val, j);
        }
    }
    assert(nv =~= ov);
}

proof fn lemma_keyed_remove<T, K, V>(s: Seq<T>, key: spec_fn(T) -> K, val: spec_fn(T) -> V, i: int)
    requires
        keys_distinct(s, key),
        0 <= i < s.len(),
    ensures
        keys_distinct(s.remove(i), key),
        keyed_map(s.remove(i), key, val) == keyed_map(s, key, val).remove(key(s[i])),
{
    let t = s.remove(i);
    let gone = key(s[i]);
    let nv = keyed_map(t, key, val);
    let ov = keyed_map(s, key, val).remove(gone);
    assert forall|a: int| 0 <= a < t.len() implies #[trigger] t[a] == s[if a < i {
        a
    } else {
        a + 1
    }] by {}
    assert(keys_distinct(t, key)) by {
        assert forall|a: int, b: int|
            0 <= a < t.len() && 0 <= b < t.len() && a != b implies key(t[a]) != key(t[b]) by {
            let a0 = if a < i {
                a
            } else {
                a + 1
            };
            let b0 = if b < i {
                b
            } else {
                b + 1
            };
            assert(t[a] == s[a0]);
            assert(t[b] == s[b0]);
        }
    }
    assert forall|k: K| nv.contains_key(k) <==> ov.contains_key(k) by {
        if has_key(t, key, k) {
            let j = choose|j: int| 0 <= j < t.len() && key(t[j]) == k;
            let j0 = if j < i {
                j
            } else {
                j + 1
            };
            assert(t[j] == s[j0]);
            lemma_keyed_at(s, key, val, j0);
        }
        if has_key(s, key, k) && k != gone {
            let j0 = choose|j: int| 0 <= j < s.len() && key(s[j]) == k;
            let j = if j0 < i {
                j0
            } else {
                j0 - 1
            };
            assert(t[j] == s[j0]);
            lemma_keyed_at(t, key, val, j);
        }
    }
    assert forall|k: K| nv.contains_key(k) implies nv[k] == ov[k] by {
        let j = choose|j: int| 0 <= j < t.len() && key(t[j]) == k;
        let j0 = if j < i {
            j
        } else {
            j + 1
        };
        assert(t[j] == s[j0]);
        lemma_keyed_at(t, key, val, j);
        lemma_keyed_at(s, key, val, j0);
    }
    assert(nv =~= ov);
}

/// Changing every item's value by `f`, keeping the keys in place, changes the
/// map's values by `f`.
proof fn lemma_keyed_map_values<T, K, V>(
    s: Seq<T>,
    t: Seq<T>,
    key: spec_fn(T) -> K,
    val: spec_fn(T) -> V,
    f: spec_fn(V) -> V,
)
    requires
        keys_distinct(s, key),
        t.len() == s.len(),
        forall|j: int| 0 <= j < s.len() ==> key(#[trigger] t[j]) == key(s[j]),
        forall|j: int| 0 <= j < s.len() ==> val(#[trigger] t[j]) == f(val(s[j])),
    ensures
        keys_distinct(t, key),
        keyed_map(t, key, val) == keyed_map(s, key, val).map_values(f),
{
    let nv = keyed_map(t, key, val);
    let ov = keyed_map(s, key, val).map_values(f);
    assert(keys_distinct(t, key)) by {
        assert forall|a: int, b: int|
            0 <= a < t.len() && 0 <= b < t.len() && a != b implies key(t[a]) != key(t[b]) by {
            assert(key(t[a]) == key(s[a]));
            assert(key(t[b]) == key(s[b]));
        }
    }
    assert forall|k: K| nv.contains_key(k) <==> ov.contains_key(k) by {
        if has_key(t, key, k) {
            let j = choose|j: int| 0 <= j < t.len() && key(t[j]) == k;
            assert(key(t[j]) == key(s[j]));
            lemma_keyed_at(s, key, val, j);
        }
        if has_key(s, key, k) {
            let j = choose|j: int| 0 <= j < s.len() && key(s[j]) == k;
            assert(key(t[j]) == key(s[j]));
            lemma_keyed_at(t, key, val, j);
        }
    }
    assert forall|k: K| nv.contains_key(k) implies nv[k] == ov[k] by {
        let j = choose|j: int| 0 <= j < t.len() && key(t[j]) == k;
        assert(key(t[j]) == key(s[j]));
        assert(val(t[j]) == f(val(s[j])));
        lemma_keyed_at(t, key, val, j);
        lemma_keyed_at(s, key, val, j);
    }
    assert(nv =~= ov);
}

/// A list with distinct keys has as many keys in its map as items.
proof fn lemma_keyed_count<T, K, V>(s: Seq<T>, key: spec_fn(T) -> K, val: spec_fn(T) -> V)
    requires
        keys_distinct(s, key),
    ensures
        keyed_map(s, key, val).dom().finite(),
        keyed_map(s, key, val).dom().len() == s.len(),
{
    let keys = s.map_values(key);
    let dom = keyed_map(s, key, val).dom();
    assert(keys.no_duplicates());
    assert(dom =~= keys.to_set()) by {
        assert forall|k: K| dom.contains(k) implies keys.to_set().contains(k) by {
            let j = choose|j: int| 0 <= j < s.len() && key(s[j]) == k;
            assert(keys[j] == k);
        }
        assert forall|k: K| keys.to_set().contains(k) implies dom.contains(k) by {
            let j = choose|j: int| 0 <= j < keys.len() && keys[j] == k;
            assert(key(s[j]) == k);
        }
    }
    keys.unique_seq_to_set();
    vstd::seq_lib::seq_to_set_is_finite(keys);
}

// ---- The rooms as maps ---------------------------------------------------

spec fn client_key() -> spec_fn(ClientSlot) -> usize {
    |c: ClientSlot| c.id
}

spec fn client_val() -> spec_fn(ClientSlot) -> ClientSender {
    |c: ClientSlot| c.tx
}

spec fn client_map(clients: Seq<ClientSlot>) -> RoomClients {
    keyed_map(clients, client_key(), client_val())
}

spec fn room_key() -> spec_fn(RoomSlot) -> Seq<char> {
    |r: RoomSlot| r.name@
}

spec fn room_val() -> spec_fn(RoomSlot) -> RoomClients {
    |r: RoomSlot| client_map(r.clients@)
}

spec fn rooms_model(rooms: Seq<RoomSlot>) -> RoomsModel {
    keyed_map(rooms, room_key(), room_val())
}

spec fn rooms_wf(rooms: Seq<RoomSlot>) -> bool {
    &&& keys_distinct(rooms, room_key())
    &&& forall|i: int|
        0 <= i < rooms.len() ==> keys_distinct(#[trigger] rooms[i].clients@, client_key())
}

impl View for AppState {
    type V = RoomsModel;

    closed spec fn view(&self) -> RoomsModel {
        rooms_model(self.rooms@)
    }
}

impl AppState {
    /// Room names are distinct, and so are the client ids within a room.
    #[verifier::type_invariant]
    spec fn well_formed(self) -> bool {
        rooms_wf(self.rooms@)
    }

    /// The id that the next client to join will get.
    pub closed spec fn pending_client_id(&self) -> usize {
        self.next_client_id
    }
}

/// The model of well-formed rooms holds finitely many clients per room.
proof fn lemma_model_finite(rooms: Seq<RoomSlot>)
    requires
        rooms_wf(rooms),
    ensures
        rooms_finite(rooms_model(rooms)),
{
    assert forall|room: Seq<char>| #[trigger] rooms_model(rooms).contains_key(room) implies rooms_model(
        rooms,
    )[room].dom().finite() by {
        let i = choose|i: int| 0 <= i < rooms.len() && room_key()(rooms[i]) == room;
        lemma_keyed_at(rooms, room_key(), room_val(), i);
        lemma_keyed_count(rooms[i].clients@, client_key(), client_val());
    }
}

/// Replacing room `i` by `slot`, of the same name and with distinct client
/// ids, replaces that room's clients in the model.
proof fn lemma_room_update(rooms: Seq<RoomSlot>, i: int, slot: RoomSlot)
    requires
        rooms_wf(rooms),
        0 <= i < rooms.len(),
        slot.name@ == rooms[i].name@,
        keys_distinct(slot.clients@, client_key()),
    ensures
        rooms_wf(rooms.update(i, slot)),
        rooms_model(rooms.update(i, slot)) == rooms_model(rooms).insert(
            slot.name@,
            client_map(slot.clients@),
        ),
{
    lemma_keyed_update(rooms, room_key(), room_val(), i, slot);
    let t = rooms.update(i, slot);
    assert forall|a: int| 0 <= a < t.len() implies keys_distinct(
        #[trigger] t[a].clients@,
        client_key(),
    ) by {
        if a != i {
            assert(t[a] == rooms[a]);
        }
    }
}

// ---- Client lists ---------------------------------------------------------

/// The position of the client with the id `id`, if it is in the list.
fn client_position(clients: &Vec<ClientSlot>, id: usize) -> (pos: Option<usize>)
    ensures
        match pos {
            Some(k) => k < clients.len() && clients@[k as int].id == id,
            None => !client_map(clients@).contains_key(id),
        },
{
    let mut k: usize = 0;
    while k < clients.len()
        invariant
            k <= clients.len(),
            forall|j: int| 0 <= j < k ==> clients@[j].id != id,
        decreases clients.len() - k,
    {
        if clients[k].id == id {
            return Some(k);
        }
        k += 1;
    }
    None
}

/// Takes the client with the id `id` out of the list, if it is there.
fn remove_client(clients: &mut Vec<ClientSlot>, id: usize)
    requires
        keys_distinct(old(clients)@, client_key()),
    ensures
        keys_distinct(final(clients)@, client_key()),
        client_map(final(clients)@) == client_map(old(clients)@).remove(id),
{
    match client_position(clients, id) {
        Some(k) => {
            proof {
                lemma_keyed_remove(clients@, client_key(), client_val(), k as int);
            }
            clients.remove(k);
        },
        None => {
            assert(client_map(clients@) =~= client_map(clients@).remove(id));
        },
    }
}

/// Puts a client with the id `id` and the sender `tx` in the list, in place
/// of any client that had the same id.
fn add_client(clients: &mut Vec<ClientSlot>, id: usize, tx: ClientSender)
    requires
        keys_distinct(old(clients)@, client_key()),
    ensures
        keys_distinct(final(clients)@, client_key()),
        client_map(final(clients)@) == client_map(old(clients)@).insert(id, tx),
{
    remove_client(clients, id);
    let slot = ClientSlot { id, tx };
    proof {
        lemma_keyed_push(clients@, client_key(), client_val(), slot);
    }
    clients.push(slot);
    assert(client_map(old(clients)@).remove(id).insert(id, tx) =~= client_map(old(clients)@).insert(
        id,
        tx,
    ));
}

/// Hands `message` once to the sender of every client in the list.
fn hand_to_all(clients: &mut Vec<ClientSlot>, message: &String)
    requires
        keys_distinct(old(clients)@, client_key()),
    ensures
        keys_distinct(final(clients)@, client_key()),
        final(clients)@.len() == old(clients)@.len(),
        client_map(final(clients)@) == client_map(old(clients)@).map_values(handing(message@)),
{
    let ghost start = clients@;
    let mut k: usize = 0;
    while k < clients.len()
        invariant
            k <= clients.len(),
            clients@.len() == start.len(),
            forall|j: int|
                0 <= j < k ==> (#[trigger] clients@[j]).id == start[j].id && clients@[j].tx
                    == start[j].tx.after_handing(message@),
            forall|j: int| k <= j < clients@.len() ==> #[trigger] clients@[j] == start[j],
        decreases clients.len() - k,
    {
        let ghost before = clients@;
        let mut slot = clients.remove(k);
        let _ = slot.tx.send(message.clone());
        clients.insert(k, slot);
        assert forall|j: int| 0 <= j < clients@.len() && j != k implies #[trigger] clients@[j]
            == before[j] by {
            assert(clients@ =~= before.update(k as int, slot));
        }
        assert(clients@[k as int] == slot);
        k += 1;
    }
    proof {
        let f = handing(message@);
        assert forall|j: int| 0 <= j < start.len() implies client_val()(#[trigger] clients@[j])
            == f(client_val()(start[j])) by {}
        assert forall|j: int| 0 <= j < start.len() implies client_key()(#[trigger] clients@[j])
            == client_key()(start[j]) by {}
        lemma_keyed_map_values(start, clients@, client_key(), client_val(), f);
    }
}

// ---- Laws ------------------------------------------------------------------

/// A room can be created once: after it is created it exists, with no
/// client, so creating it again is refused.
pub proof fn law_room_created_once(rooms: RoomsModel, room: Seq<char>)
    ensures
        rooms.insert(room, RoomClients::empty()).contains_key(room),
        rooms.insert(room, RoomClients::empty())[room] == RoomClients::empty(),
{
}

/// A client that joins a room with other clients in it and then leaves it
/// leaves the rooms as they were, senders and all.
pub proof fn law_leave_undoes_join(
    rooms: RoomsModel,
    room: Seq<char>,
    client: usize,
    tx: ClientSender,
)
    requires
        rooms.contains_key(room),
        !rooms[room].contains_key(client),
        rooms[room] != RoomClients::empty(),
    ensures
        after_leave(after_join(rooms, room, client, tx), room, client) == rooms,
{
    assert(rooms[room].insert(client, tx).remove(client) =~= rooms[room]);
    assert(after_leave(after_join(rooms, room, client, tx), room, client) =~= rooms);
}

/// When the last client of a room leaves, the room is gone.
pub proof fn law_last_client_closes_room(
    rooms: RoomsModel,
    room: Seq<char>,
    client: usize,
    tx: ClientSender,
)
    requires
        rooms.contains_key(room),
        rooms[room] == RoomClients::empty().insert(client, tx),
    ensures
        !after_leave(rooms, room, client).contains_key(room),
{
    assert(rooms[room].remove(client) =~= RoomClients::empty());
}

/// Leaving a room one is not in changes nothing, unless the room is empty,
/// in which case it is dropped.
pub proof fn law_leave_by_stranger(rooms: RoomsModel, room: Seq<char>, client: usize)
    requires
        rooms.contains_key(room),
        !rooms[room].contains_key(client),
    ensures
        rooms[room] != RoomClients::empty() ==> after_leave(rooms, room, client) == rooms,
        rooms[room] == RoomClients::empty() ==> after_leave(rooms, room, client) == rooms.remove(
            room,
        ),
{
    assert(rooms[room].remove(client) =~= rooms[room]);
    if rooms[room] != RoomClients::empty() {
        assert(after_leave(rooms, room, client) =~= rooms);
    }
}

/// A client that joins a room with finitely many clients, not among them,
/// adds one to the number of clients that a broadcast to the room reaches.
pub proof fn law_join_adds_one_recipient(
    rooms: RoomsModel,
    room: Seq<char>,
    client: usize,
    tx: ClientSender,
)
    requires
        rooms.contains_key(room),
        rooms[room].dom().finite(),
        !rooms[room].contains_key(client),
    ensures
        after_join(rooms, room, client, tx).contains_key(room),
        after_join(rooms, room, client, tx)[room].dom().len() == rooms[room].dom().len() + 1,
{
}

/// The pending client id after `joins` successful joins on a new server.
pub open spec fn id_after_joins(joins: nat) -> usize
    decreases joins,
{
    if joins == 0 {
        1
    } else {
        next_id_after(id_after_joins((joins - 1) as nat))
    }
}

/// On a new server, the successful joins get the ids 1, 2, 3, ... in call
/// order, until the counter wraps: the join numbered `n` (from 0) gets
/// `n + 1`, so no two of them share an id.
pub proof fn law_join_ids_count_up(n: nat, m: nat)
    requires
        n < usize::MAX,
        m < usize::MAX,
    ensures
        id_after_joins(n) == n + 1,
        n != m ==> id_after_joins(n) != id_after_joins(m),
    decreases n + m,
{
    if n > 0 {
        law_join_ids_count_up((n - 1) as nat, 0);
    }
    if m > 0 {
        law_join_ids_count_up((m - 1) as nat, 0);
    }
}

/// Two clients that join one after the other get different ids.
pub proof fn law_successive_ids_differ(id: usize)
    ensures
        next_id_after(id) != id,
{
}

/// A broadcast hands the message exactly once to every client of the room,
/// on the channel the client already had, and keeps the room's clients.
pub proof fn law_broadcast_reaches_each_client_once(
    rooms: RoomsModel,
    room: Seq<char>,
    message: Seq<char>,
    client: usize,
)
    requires
        rooms.contains_key(room),
        rooms[room].contains_key(client),
    ensures
        after_broadcast(rooms, room, message).contains_key(room),
        after_broadcast(rooms, room, message)[room].dom() == rooms[room].dom(),
        after_broadcast(rooms, room, message)[room][client].handed() == rooms[room][client].handed().push(
            message,
        ),
        after_broadcast(rooms, room, message)[room][client].channel()
            == rooms[room][client].channel(),
        after_broadcast(rooms, room, message)[room][client].handle()
            == rooms[room][client].handle(),
{
    rooms[room][client].lemma_after_handing(message);
    assert(after_broadcast(rooms, room, message)[room].dom() =~= rooms[room].dom());
}

/// A broadcast to a room that does not exist hands nothing to anyone.
pub proof fn law_broadcast_to_missing_room(rooms: RoomsModel, room: Seq<char>, message: Seq<char>)
    requires
        !rooms.contains_key(room),
    ensures
        after_broadcast(rooms, room, message) == rooms,
{
}

/// Joining, leaving or broadcasting in one room leaves every other room as
/// it was.
pub proof fn law_other_rooms_untouched(
    rooms: RoomsModel,
    room: Seq<char>,
    other: Seq<char>,
    client: usize,
    tx: ClientSender,
    message: Seq<char>,
)
    requires
        room != other,
    ensures
        after_join(rooms, room, client, tx).contains_key(other) == rooms.contains_key(other),
        after_leave(rooms, room, client).contains_key(other) == rooms.contains_key(other),
        after_broadcast(rooms, room, message).contains_key(other) == rooms.contains_key(other),
        rooms.contains_key(other) ==> after_join(rooms, room, client, tx)[other] == rooms[other],
        rooms.contains_key(other) ==> after_leave(rooms, room, client)[other] == rooms[other],
        rooms.contains_key(other) ==> after_broadcast(rooms, room, message)[other] == rooms[other],
{
}

// ---- The server's rooms -----------------------------------------------------

impl AppState {
    /// A server with no rooms; the first client to join gets the id 1.
    pub fn new() -> (state: AppState)
        ensures
            state@ == RoomsModel::empty(),
            state.pending_client_id() == 1,
    {
        let state = AppState { rooms: Vec::new(), next_client_id: 1 };
        assert(state@ =~= RoomsModel::empty());
        state
    }

    /// The position of the room named `room_id`, if there is one.
    fn find_room(&self, room_id: &str) -> (pos: Option<usize>)
        ensures
            match pos {
                Some(i) => i < self.rooms.len() && self.rooms@[i as int].name@ == room_id@,
                None => !self@.contains_key(room_id@),
            },
    {
        let key = room_id.to_owned();
        let mut i: usize = 0;
        while i < self.rooms.len()
            invariant
                i <= self.rooms.len(),
                key@ == room_id@,
                forall|j: int| 0 <= j < i ==> self.rooms@[j].name@ != room_id@,
            decreases self.rooms.len() - i,
        {
            if self.rooms[i].name == key {
                return Some(i);
            }
            i += 1;
        }
        None
    }

    /// Creates an empty room named `room_id`. Returns `false`, and changes
    /// nothing, when such a room already exists.
    pub fn create_room(&mut self, room_id: &str) -> (created: bool)
        ensures
            created == !old(self)@.contains_key(room_id@),
            created ==> final(self)@ == old(self)@.insert(room_id@, RoomClients::empty()),
            !created ==> final(self)@ == old(self)@,
            final(self).pending_client_id() == old(self).pending_client_id(),
            rooms_finite(final(self)@),
    {
        proof {
            use_type_invariant(&*self);
            lemma_model_finite(self.rooms@);
        }
        match self.find_room(room_id) {
            Some(i) => {
                proof {
                    lemma_keyed_at(self.rooms@, room_key(), room_val(), i as int);
                }
                false
            },
            None => {
                let slot = RoomSlot { name: room_id.to_owned(), clients: Vec::new() };
                assert(client_map(slot.clients@) =~= RoomClients::empty());
                proof {
                    lemma_keyed_push(self.rooms@, room_key(), room_val(), slot);
                    assert(keys_distinct(slot.clients@, client_key()));
                    assert forall|a: int| 0 <= a < self.rooms@.push(slot).len() implies keys_distinct(
                        #[trigger] self.rooms@.push(slot)[a].clients@,
                        client_key(),
                    ) by {
                        if a < self.rooms@.len() {
                            assert(self.rooms@.push(slot)[a] == self.rooms@[a]);
                        }
                    }
                    lemma_model_finite(self.rooms@.push(slot));
                }
                let mut rooms: Vec<RoomSlot> = Vec::new();
                std::mem::swap(&mut rooms, &mut self.rooms);
                rooms.push(slot);
                self.rooms = rooms;
                true
            },
        }
    }

    /// Whether a room named `room_id` exists.
    pub fn room_exists(&self, room_id: &str) -> (exists: bool)
        ensures
            exists == self@.contains_key(room_id@),
    {
        proof {
            use_type_invariant(self);
        }
        match self.find_room(room_id) {
            Some(i) => {
                proof {
                    lemma_keyed_at(self.rooms@, room_key(), room_val(), i as int);
                }
                true
            },
            None => false,
        }
    }

    /// Adds a new client to the room named `room_id`: it gets the pending
    /// client id and a fresh channel, whose sending half is kept in the room
    /// and whose receiving half is returned with the id. Returns `None`, and
    /// changes nothing, when there is no such room.
    pub fn join_room(&mut self, room_id: &str) -> (joined: Option<(usize, ClientReceiver)>)
        ensures
            joined is None <==> !old(self)@.contains_key(room_id@),
            joined is None ==> {
                &&& final(self)@ == old(self)@
                &&& final(self).pending_client_id() == old(self).pending_client_id()
            },
            joined matches Some((id, rx)) ==> {
                &&& id == old(self).pending_client_id()
                &&& final(self).pending_client_id() == next_id_after(id)
                &&& final(self)@ == after_join(old(self)@, room_id@, id, final(self)@[room_id@][id])
                &&& final(self)@[room_id@][id].channel() == rx.channel()
                &&& final(self)@[room_id@][id].handed() == Seq::<Seq<char>>::empty()
            },
            rooms_finite(final(self)@),
    {
        proof {
            use_type_invariant(&*self);
            lemma_model_finite(self.rooms@);
        }
        match self.find_room(room_id) {
            None => None,
            Some(i) => {
                proof {
                    lemma_keyed_at(self.rooms@, room_key(), room_val(), i as int);
                }
                let client_id = self.next_client_id;
                self.next_client_id = self.next_client_id.wrapping_add(1);
                let (tx, rx) = open_client_channel();
                let ghost stored = tx;
                let mut rooms: Vec<RoomSlot> = Vec::new();
                std::mem::swap(&mut rooms, &mut self.rooms);
                let ghost before = rooms@;
                let mut slot = rooms.remove(i);
                add_client(&mut slot.clients, client_id, tx);
                proof {
                    lemma_room_update(before, i as int, slot);
                    lemma_model_finite(before.update(i as int, slot));
                }
                rooms.insert(i, slot);
                assert(rooms@ =~= before.update(i as int, slot));
                self.rooms = rooms;
                assert(self@[room_id@] =~= old(self)@[room_id@].insert(client_id, stored));
                Some((client_id, rx))
            },
        }
    }

    /// Takes the client `client_id` out of the room named `room_id`, and
    /// drops the room if no client is left in it.
    pub fn leave_room(&mut self, room_id: &str, client_id: usize)
        ensures
            final(self)@ == after_leave(old(self)@, room_id@, client_id),
            final(self).pending_client_id() == old(self).pending_client_id(),
            rooms_finite(final(self)@),
    {
        proof {
            use_type_invariant(&*self);
            lemma_model_finite(self.rooms@);
        }
        match self.find_room(room_id) {
            None => {},
            Some(i) => {
                proof {
                    lemma_keyed_at(self.rooms@, room_key(), room_val(), i as int);
                }
                let mut rooms: Vec<RoomSlot> = Vec::new();
                std::mem::swap(&mut rooms, &mut self.rooms);
                let ghost before = rooms@;
                let mut slot = rooms.remove(i);
                remove_client(&mut slot.clients, client_id);
                if slot.clients.len() == 0 {
                    assert(client_map(slot.clients@) =~= RoomClients::empty());
                    proof {
                        lemma_keyed_remove(before, room_key(), room_val(), i as int);
                        assert forall|a: int| 0 <= a < rooms@.len() implies keys_distinct(
                            #[trigger] rooms@[a].clients@,
                            client_key(),
                        ) by {
                            let a0 = if a < i {
                                a
                            } else {
                                a + 1
                            };
                            assert(rooms@[a] == before[a0]);
                        }
                        lemma_model_finite(rooms@);
                    }
                } else {
                    proof {
                        lemma_keyed_at(slot.clients@, client_key(), client_val(), 0);
                        lemma_room_update(before, i as int, slot);
                        lemma_model_finite(before.update(i as int, slot));
                    }
                    rooms.insert(i, slot);
                    assert(rooms@ =~= before.update(i as int, slot));
                }
                self.rooms = rooms;
            },
        }
    }

    /// Hands `message` once to the channel of every client of the room named
    /// `room_id` and returns how many clients the room has: 0 when there is
    /// no such room, in which case nothing is handed to anyone.
    pub fn broadcast(&mut self, room_id: &str, message: String) -> (sent: usize)
        ensures
            final(self)@ == after_broadcast(old(self)@, room_id@, message@),
            final(self).pending_client_id() == old(self).pending_client_id(),
            old(self)@.contains_key(room_id@) ==> sent == old(self)@[room_id@].dom().len(),
            !old(self)@.contains_key(room_id@) ==> sent == 0,
            rooms_finite(final(self)@),
    {
        proof {
            use_type_invariant(&*self);
            lemma_model_finite(self.rooms@);
        }
        match self.find_room(room_id) {
            None => 0,
            Some(i) => {
                proof {
                    lemma_keyed_at(self.rooms@, room_key(), room_val(), i as int);
                    lemma_keyed_count(self.rooms@[i as int].clients@, client_key(), client_val());
                }
                let mut rooms: Vec<RoomSlot> = Vec::new();
                std::mem::swap(&mut rooms, &mut self.rooms);
                let ghost before = rooms@;
                let mut slot = rooms.remove(i);
                let count = slot.clients.len();
                hand_to_all(&mut slot.clients, &message);
                proof {
                    lemma_room_update(before, i as int, slot);
                    lemma_model_finite(before.update(i as int, slot));
                }
                rooms.insert(i, slot);
                assert(rooms@ =~= before.update(i as int, slot));
                self.rooms = rooms;
                count
            },
        }
    }
}

} // verus!
