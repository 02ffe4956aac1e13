# quiz_buzzer

The logic of a quiz game server, verified with Verus.

- `src/buzzer.rs` — teams, the buzzer (first press wins) and a game.
- `src/question.rs` — question categories and the names the database stores.
- `src/rooms/` — chat rooms and a registry of them.
- `src/room_hub.rs` — the live websocket rooms: create, join, leave, broadcast.
- `src/channel.rs` — the tokio channels through which a room reaches its clients.
- `src/session.rs` — what a websocket session does with each event.
- `src/replies.rs` — the status and text of the answers to room requests.
- `app/` — the actix-web server, the websocket loop and the Postgres queries,
  built on the library.
