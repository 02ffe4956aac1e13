use quiz_buzzer::session::{session_step, SessionAction, SessionEvent};

#[test]
fn client_text_is_broadcast() {
    assert_eq!(
        session_step(SessionEvent::ClientText("salut".to_string())),
        SessionAction::Broadcast("salut".to_string())
    );
}

#[test]
fn ping_is_answered_with_its_payload() {
    assert_eq!(session_step(SessionEvent::ClientPing(vec![1, 2, 3])), SessionAction::Pong(vec![1, 2, 3]));
}

#[test]
fn room_messages_are_forwarded() {
    assert_eq!(
        session_step(SessionEvent::RoomMessage("hi".to_string())),
        SessionAction::Forward("hi".to_string())
    );
}

#[test]
fn other_frames_are_ignored() {
    assert_eq!(session_step(SessionEvent::ClientOther), SessionAction::Wait);
}

#[test]
fn session_ends_on_close_loss_or_failure() {
    for event in [
        SessionEvent::ClientClose,
        SessionEvent::ClientGone,
        SessionEvent::RoomClosed,
        SessionEvent::WriteFailed,
    ] {
        assert_eq!(session_step(event), SessionAction::Leave);
    }
}
