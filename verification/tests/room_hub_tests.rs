use quiz_buzzer::room_hub::AppState;

#[test]
fn a_room_is_created_once() {
    let mut state = AppState::new();
    assert!(!state.room_exists("quiz"));
    assert!(state.create_room("quiz"));
    assert!(state.room_exists("quiz"));
    assert!(!state.create_room("quiz"));
    assert!(!state.room_exists("other"));
}

#[test]
fn joining_an_unknown_room_fails() {
    let mut state = AppState::new();
    assert!(state.join_room("nowhere").is_none());
    state.create_room("quiz");
    let (id, _rx) = state.join_room("quiz").expect("joined");
    assert_eq!(id, 1);
}

#[test]
fn clients_get_successive_ids() {
    let mut state = AppState::new();
    state.create_room("a");
    state.create_room("b");
    let (first, _r1) = state.join_room("a").unwrap();
    assert!(state.join_room("c").is_none());
    let (second, _r2) = state.join_room("b").unwrap();
    let (third, _r3) = state.join_room("a").unwrap();
    assert_eq!((first, second, third), (1, 2, 3));
}

#[test]
fn broadcast_counts_and_reaches_the_room_only() {
    let mut state = AppState::new();
    state.create_room("a");
    state.create_room("b");
    assert_eq!(state.broadcast("a", "nobody".to_string()), 0);
    let (_id1, rx1) = state.join_room("a").unwrap();
    let mut rx1 = rx1.into_inner();
    let (_id2, rx2) = state.join_room("a").unwrap();
    let mut rx2 = rx2.into_inner();
    let (_id3, rx3) = state.join_room("b").unwrap();
    let mut rx3 = rx3.into_inner();
    assert_eq!(state.broadcast("a", "hello".to_string()), 2);
    assert_eq!(rx1.try_recv().unwrap(), "hello");
    assert_eq!(rx2.try_recv().unwrap(), "hello");
    assert!(rx3.try_recv().is_err());
    assert_eq!(state.broadcast("missing", "x".to_string()), 0);
}

#[test]
fn broadcast_still_counts_a_client_whose_receiver_is_gone() {
    let mut state = AppState::new();
    state.create_room("a");
    let (_id, rx) = state.join_room("a").unwrap();
    drop(rx);
    assert_eq!(state.broadcast("a", "hello".to_string()), 1);
}

#[test]
fn leaving_then_rejoining() {
    let mut state = AppState::new();
    state.create_room("a");
    let (id1, _rx1) = state.join_room("a").unwrap();
    let (id2, rx2) = state.join_room("a").unwrap();
    let mut rx2 = rx2.into_inner();
    state.leave_room("a", id1);
    assert!(state.room_exists("a"));
    assert_eq!(state.broadcast("a", "still here".to_string()), 1);
    assert_eq!(rx2.try_recv().unwrap(), "still here");
    state.leave_room("a", id2);
    assert!(!state.room_exists("a"));
    assert_eq!(state.broadcast("a", "gone".to_string()), 0);
}

#[test]
fn leave_undoes_join_in_a_room_with_others() {
    let mut state = AppState::new();
    state.create_room("a");
    let (_id1, _rx1) = state.join_room("a").unwrap();
    let (id2, _rx2) = state.join_room("a").unwrap();
    assert_eq!(state.broadcast("a", "m".to_string()), 2);
    state.leave_room("a", id2);
    assert_eq!(state.broadcast("a", "m".to_string()), 1);
}

#[test]
fn leaving_an_empty_room_drops_it() {
    let mut state = AppState::new();
    state.create_room("empty");
    state.leave_room("empty", 42);
    assert!(!state.room_exists("empty"));
}

#[test]
fn a_stranger_leaving_changes_nothing() {
    let mut state = AppState::new();
    state.create_room("a");
    let (id, _rx) = state.join_room("a").unwrap();
    state.leave_room("a", id + 100);
    state.leave_room("unknown", id);
    assert!(state.room_exists("a"));
    assert_eq!(state.broadcast("a", "m".to_string()), 1);
}

#[test]
fn leaving_one_room_leaves_the_others() {
    let mut state = AppState::new();
    state.create_room("a");
    state.create_room("b");
    let (ida, _ra) = state.join_room("a").unwrap();
    let (_idb, _rb) = state.join_room("b").unwrap();
    state.leave_room("a", ida);
    assert!(!state.room_exists("a"));
    assert!(state.room_exists("b"));
    assert_eq!(state.broadcast("b", "m".to_string()), 1);
}

#[test]
fn each_client_gets_each_message_once_in_order() {
    let mut state = AppState::new();
    assert!(state.create_room("r"));
    assert_eq!(state.broadcast("r", "hi".to_string()), 0);
    let (id, rx) = state.join_room("r").unwrap();
    assert_eq!(id, 1);
    let mut rx = rx.into_inner();
    assert_eq!(state.broadcast("r", "hi".to_string()), 1);
    assert_eq!(state.broadcast("r", "again".to_string()), 1);
    assert_eq!(state.broadcast("zz", "x".to_string()), 0);
    assert_eq!(rx.try_recv().unwrap(), "hi");
    assert_eq!(rx.try_recv().unwrap(), "again");
    assert!(rx.try_recv().is_err());
}

#[test]
fn a_refused_create_keeps_the_clients_channels() {
    let mut state = AppState::new();
    state.create_room("r");
    let (_id, rx) = state.join_room("r").unwrap();
    let mut rx = rx.into_inner();
    assert!(!state.create_room("r"));
    assert_eq!(state.broadcast("r", "still".to_string()), 1);
    assert_eq!(rx.try_recv().unwrap(), "still");
}
