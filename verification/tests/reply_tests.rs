use quiz_buzzer::replies::{broadcast_reply, create_room_reply, room_not_found_reply, ReplyStatus};

#[test]
fn created_room_reply() {
    let reply = create_room_reply(true);
    assert_eq!(reply.status, ReplyStatus::Created);
    assert_eq!(reply.body, "room created");
}

#[test]
fn existing_room_reply() {
    let reply = create_room_reply(false);
    assert_eq!(reply.status, ReplyStatus::Conflict);
    assert_eq!(reply.body, "room already exists");
}

#[test]
fn broadcast_to_nobody_is_not_found() {
    let reply = broadcast_reply(0);
    assert_eq!(reply.status, ReplyStatus::NotFound);
    assert_eq!(reply.body, "room not found or empty");
}

#[test]
fn broadcast_reply_counts_clients() {
    for n in [1usize, 7, 10, 42, 100, 1234567, usize::MAX] {
        let reply = broadcast_reply(n);
        assert_eq!(reply.status, ReplyStatus::Success);
        assert_eq!(reply.body, format!("sent to {n} client(s)"));
    }
}

#[test]
fn missing_room_reply() {
    let reply = room_not_found_reply();
    assert_eq!(reply.status, ReplyStatus::NotFound);
    assert_eq!(reply.body, "room not found");
}
