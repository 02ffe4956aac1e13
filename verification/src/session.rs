//! What a client's websocket session does with each thing that happens to it.
//!
//! The session waits on two sources at once: the frames the client sends,
//! and the messages its room sends it. Each event gives one action; the
//! session ends, and the client leaves the room, on the first `Leave`.

use vstd::prelude::*;
use crate::room_hub::{after_broadcast, RoomsModel};

verus! {

/// Something that happened to a client's session.
#[derive(Clone, Debug, PartialEq)]
pub enum SessionEvent {
    /// The client sent this text.
    ClientText(String),
    /// The client sent a ping with this payload.
    ClientPing(Vec<u8>),
    /// The client asked to close the connection.
    ClientClose,
    /// The client sent a frame of some other kind.
    ClientOther,
    /// The client's stream failed or ended.
    ClientGone,
    /// The room has this message for the client.
    RoomMessage(String),
    /// The room's channel to the client is closed.
    RoomClosed,
    /// A pong or a text could not be written to the client.
    WriteFailed,
}

/// What the session does next.
#[derive(Clone, Debug, PartialEq)]
pub enum SessionAction {
    /// Send this text to everyone in the room.
    Broadcast(String),
    /// Answer the client's ping with this payload.
    Pong(Vec<u8>),
    /// Write this room message to the client.
    Forward(String),
    /// Nothing to do; wait for the next event.
    Wait,
    /// End the session and take the client out of the room.
    Leave,
}

/// The action that an event calls for.
pub open spec fn action_for(event: SessionEvent) -> SessionAction {
    match event {
        SessionEvent::ClientText(text) => SessionAction::Broadcast(text),
        SessionEvent::ClientPing(payload) => SessionAction::Pong(payload),
        SessionEvent::RoomMessage(text) => SessionAction::Forward(text),
        SessionEvent::ClientOther => SessionAction::Wait,
        SessionEvent::ClientClose => SessionAction::Leave,
        SessionEvent::ClientGone => SessionAction::Leave,
        SessionEvent::RoomClosed => SessionAction::Leave,
        SessionEvent::WriteFailed => SessionAction::Leave,
    }
}

/// The next step of a session after `event`.
pub fn session_step(event: SessionEvent) -> (action: SessionAction)
    ensures
        action == action_for(event),
        event matches SessionEvent::ClientPing(payload) ==> action == SessionAction::Pong(payload),
        event matches SessionEvent::ClientText(text) ==> action == SessionAction::Broadcast(text),
        event matches SessionEvent::RoomMessage(text) ==> action == SessionAction::Forward(text),
        event is ClientOther ==> action == SessionAction::Wait,
        (event is ClientClose || event is ClientGone || event is RoomClosed || event is WriteFailed)
            ==> action == SessionAction::Leave,
{
    match event {
        SessionEvent::ClientText(text) => SessionAction::Broadcast(text),
        SessionEvent::ClientPing(payload) => SessionAction::Pong(payload),
        SessionEvent::RoomMessage(text) => SessionAction::Forward(text),
        SessionEvent::ClientOther => SessionAction::Wait,
        SessionEvent::ClientClose => SessionAction::Leave,
        SessionEvent::ClientGone => SessionAction::Leave,
        SessionEvent::RoomClosed => SessionAction::Leave,
        SessionEvent::WriteFailed => SessionAction::Leave,
    }
}

/// A session ends exactly when the client closes or goes away, when its
/// room channel closes, or when a write to the client fails; only what the
/// client types is broadcast, unchanged, and only room messages reach the
/// client, unchanged.
pub proof fn law_session_ends_only_on_loss(event: SessionEvent)
    ensures
        (action_for(event) == SessionAction::Leave) <==> (event == SessionEvent::ClientClose
            || event == SessionEvent::ClientGone || event == SessionEvent::RoomClosed || event
            == SessionEvent::WriteFailed),
        action_for(event) is Broadcast <==> event is ClientText,
        event matches SessionEvent::ClientText(t) ==> action_for(event)
            == SessionAction::Broadcast(t),
        action_for(event) is Forward <==> event is RoomMessage,
        event matches SessionEvent::RoomMessage(t) ==> action_for(event)
            == SessionAction::Forward(t),
{
}

/// Every ping is answered, whatever its payload (the empty one included),
/// with a pong carrying the same bytes; and a pong is sent only in answer to
/// a ping, with that ping's payload.
pub proof fn law_every_ping_is_answered(payload: Vec<u8>, event: SessionEvent)
    ensures
        action_for(SessionEvent::ClientPing(payload)) == SessionAction::Pong(payload),
        action_for(SessionEvent::ClientPing(payload)) != SessionAction::Wait,
        action_for(SessionEvent::ClientPing(payload)) != SessionAction::Leave,
        action_for(event) matches SessionAction::Pong(p) ==> event == SessionEvent::ClientPing(p),
{
}

/// Text typed by a client of a room is broadcast unchanged, and the
/// broadcast hands it once to the sender of every client of that room, the
/// typing client included; each session then forwards a room message
/// unchanged to its client.
pub proof fn law_client_text_reaches_room(
    rooms: RoomsModel,
    room: Seq<char>,
    typist: usize,
    text: String,
)
    requires
        rooms.contains_key(room),
        rooms[room].contains_key(typist),
    ensures
        action_for(SessionEvent::ClientText(text)) == SessionAction::Broadcast(text),
        after_broadcast(rooms, room, text@)[room].dom() == rooms[room].dom(),
        forall|client: usize|
            #[trigger] rooms[room].contains_key(client) ==> after_broadcast(
                rooms,
                room,
                text@,
            )[room][client].handed() == rooms[room][client].handed().push(text@),
        action_for(SessionEvent::RoomMessage(text)) == SessionAction::Forward(text),
{
    assert(after_broadcast(rooms, room, text@)[room].dom() =~= rooms[room].dom());
    assert forall|client: usize| #[trigger] rooms[room].contains_key(client) implies after_broadcast(
        rooms,
        room,
        text@,
    )[room][client].handed() == rooms[room][client].handed().push(text@) by {
        rooms[room][client].lemma_after_handing(text@);
    }
}

} // verus!
