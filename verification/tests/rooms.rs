use codex_plus_core::relay::{Registration, Role};
use codex_plus_core::relay_status::lex_less;
use codex_plus_core::rooms::{message_len, other_role_of, FrameKind, RelayError, RelayState, RoomState};

fn registration(role: Role, room: &str, token: &str) -> Registration {
    Registration {
        role,
        room: room.to_string(),
        token: token.to_string(),
    }
}

#[test]
fn registered_peers_receive_what_the_other_side_sends() {
    let mut relay = RelayState::new(1_000);
    assert_eq!(relay.register_peer(&registration(Role::Host, "r", "t"), 1, 2_000), Ok(None));
    assert_eq!(relay.register_peer(&registration(Role::Client, "r", "t"), 2, 3_000), Ok(None));
    assert_eq!(relay.forward_message("r", Role::Client, 5), Some(1));
    assert_eq!(relay.forward_message("r", Role::Host, 7), Some(2));
    assert_eq!(relay.forwarded_messages, 2);
    assert_eq!(relay.forwarded_bytes, 12);
    assert_eq!(relay.total_connections, 2);
    assert_eq!(relay.active_connections, 2);
}

#[test]
fn a_wrong_token_is_refused_but_counted() {
    let mut relay = RelayState::new(0);
    relay.register_peer(&registration(Role::Host, "r", "t"), 1, 0).unwrap();
    assert_eq!(
        relay.register_peer(&registration(Role::Client, "r", "other"), 2, 0),
        Err(RelayError::TokenMismatch)
    );
    assert_eq!(relay.total_connections, 2);
    assert_eq!(relay.forward_message("r", Role::Host, 1), None);
}

#[test]
fn a_new_peer_replaces_the_old_one_on_its_side() {
    let mut relay = RelayState::new(0);
    relay.register_peer(&registration(Role::Host, "r", "t"), 1, 0).unwrap();
    assert_eq!(relay.register_peer(&registration(Role::Host, "r", "t"), 3, 0), Ok(Some(1)));
    relay.unregister_peer("r", Role::Host, 1);
    assert_eq!(relay.forward_message("r", Role::Client, 0), Some(3));
    relay.unregister_peer("r", Role::Host, 3);
    assert_eq!(relay.forward_message("r", Role::Client, 0), None);
    assert_eq!(relay.rooms.len(), 0);
    assert_eq!(relay.active_connections, 0);
}

#[test]
fn messages_to_unknown_rooms_are_counted_and_dropped() {
    let mut relay = RelayState::new(0);
    assert_eq!(relay.forward_message("nowhere", Role::Host, 9), None);
    assert_eq!(relay.forwarded_messages, 1);
    assert_eq!(relay.forwarded_bytes, 9);
    relay.unregister_peer("nowhere", Role::Host, 1);
    assert_eq!(relay.active_connections, 0);
}

#[test]
fn status_lists_rooms_in_name_order() {
    let mut relay = RelayState::new(1_000);
    relay.register_peer(&registration(Role::Host, "b", "t"), 1, 2_000).unwrap();
    relay.register_peer(&registration(Role::Host, "a", "t"), 2, 4_500).unwrap();
    relay.register_peer(&registration(Role::Client, "a", "t"), 3, 5_000).unwrap();
    relay.forward_message("a", Role::Host, 10);
    let status = relay.relay_status(10_000, "1.2.3");
    assert_eq!(status.status, "ok");
    assert_eq!(status.service, "codex-plus-mobile-relay");
    assert_eq!(status.version, "1.2.3");
    assert_eq!(status.uptime_seconds, 9);
    assert_eq!(status.rooms, 2);
    assert_eq!(status.room_details.len(), 2);
    assert_eq!(status.room_details[0].room, "a");
    assert_eq!(status.room_details[0].connections, 2);
    assert_eq!(status.room_details[0].age_seconds, 5);
    assert_eq!(status.room_details[0].forwarded_messages, 1);
    assert_eq!(status.room_details[0].forwarded_bytes, 10);
    assert_eq!(status.room_details[1].room, "b");
    assert!(status.room_details[1].host_online);
    assert!(!status.room_details[1].client_online);
    assert_eq!(status.room_details[1].connections, 1);
}

#[test]
fn room_state_slots() {
    let mut room = RoomState::new("t".to_string(), 5);
    assert!(room.is_empty());
    assert_eq!(room.set_sender(Role::Client, 4), None);
    assert_eq!(room.sender_for(Role::Client), Some(4));
    assert_eq!(room.sender_for(Role::Host), None);
    room.clear_sender(Role::Client);
    assert!(room.is_empty());
}

#[test]
fn message_lengths_count_payload_frames_only() {
    assert_eq!(message_len(FrameKind::Text, 5), 5);
    assert_eq!(message_len(FrameKind::Pong, 2), 2);
    assert_eq!(message_len(FrameKind::Close, 9), 0);
    assert_eq!(message_len(FrameKind::Frame, 9), 0);
    assert_eq!(other_role_of(Role::Host), Role::Client);
}

#[test]
fn names_sort_by_code_point() {
    let a: Vec<char> = "ab".chars().collect();
    let b: Vec<char> = "b".chars().collect();
    let c: Vec<char> = "abc".chars().collect();
    assert!(lex_less(&a, &b));
    assert!(lex_less(&a, &c));
    assert!(!lex_less(&c, &a));
    assert!(!lex_less(&a, &a));
}
