use quiz_buzzer::rooms::room::Room;
use quiz_buzzer::rooms::room_registry::RoomRegistry;

#[test]
fn a_new_room_is_empty() {
    let room = Room::new("r1".to_string(), "alice".to_string());
    assert_eq!(room.id, "r1");
    assert_eq!(room.creator, "alice");
    assert!(room.clients.is_empty());
}

#[test]
fn created_room_is_returned_and_found() {
    let mut registry = RoomRegistry::new();
    assert!(registry.get_room("r1").is_none());
    {
        let room = registry.create_room("r1".to_string(), "alice".to_string());
        assert_eq!(room.id, "r1");
        assert_eq!(room.creator, "alice");
    }
    let found = registry.get_room("r1").expect("room r1");
    assert_eq!(found.creator, "alice");
    assert!(registry.get_room("r2").is_none());
}

#[test]
fn lookup_finds_the_oldest_room_with_the_id() {
    let mut registry = RoomRegistry::new();
    registry.create_room("r".to_string(), "first".to_string());
    registry.create_room("s".to_string(), "other".to_string());
    registry.create_room("r".to_string(), "second".to_string());
    assert_eq!(registry.rooms.len(), 3);
    assert_eq!(registry.get_room("r").unwrap().creator, "first");
    assert_eq!(registry.get_room("s").unwrap().creator, "other");
}
