use matrix_user_swap::sync::{after_sync, Invites, SyncEvent, SyncStep};

fn rooms(rooms: &[&str]) -> Vec<String> {
    rooms.iter().map(|room| room.to_string()).collect()
}

#[test]
fn waiting_for_an_invitation_is_answered_once() {
    let mut invites = Invites::new();
    assert!(!invites.wait_for_invite("!a:x".to_string()));
    assert!(!invites.wait_for_invite("!a:x".to_string()));
    assert!(!invites.wait_for_invite("!c:x".to_string()));
    assert_eq!(invites.receive(rooms(&["!b:x", "!a:x", "!a:x"])), rooms(&["!a:x"]));
    assert_eq!(invites.receive(rooms(&["!a:x"])), rooms(&[]));
    assert_eq!(invites.receive(rooms(&["!c:x"])), rooms(&["!c:x"]));
}

#[test]
fn invitations_are_remembered() {
    let mut invites = Invites::new();
    assert_eq!(invites.receive(rooms(&["!a:x"])), rooms(&[]));
    assert!(invites.wait_for_invite("!a:x".to_string()));
    assert!(!invites.wait_for_invite("!b:x".to_string()));
    assert_eq!(invites.receive(rooms(&["!b:x"])), rooms(&["!b:x"]));
    assert!(invites.wait_for_invite("!a:x".to_string()));
    assert!(invites.wait_for_invite("!b:x".to_string()));
}

#[test]
fn news_continue_where_they_ended() {
    let mut invites = Invites::new();
    assert!(!invites.wait_for_invite("!a:x".to_string()));
    let event = SyncEvent::Response {
        invited: rooms(&["!a:x", "!b:x"]),
        next_batch: "t1".to_string(),
    };
    let (next, waiting) = after_sync(&mut invites, event);
    assert!(matches!(next, SyncStep::Continue { since } if since == "t1"));
    assert_eq!(waiting, rooms(&["!a:x"]));
    let (next, waiting) = after_sync(&mut invites, SyncEvent::Failed);
    assert!(matches!(next, SyncStep::Stop));
    assert!(waiting.is_empty());
    assert!(invites.wait_for_invite("!b:x".to_string()));
}
