//! End-to-end tests of the chat core: registry join/focus, peer lifecycle,
//! packet ingestion, and broadcast, driven with synthetic transport values.

use monk_chat::registry::Registry;
use monk_chat::room::Member;
use monk_chat::room::Outbound;
use monk_chat::room::Packet;
use monk_chat::room::PeerEvent;
use monk_chat::room::PeerState;
use monk_chat::room::Room;
use monk_chat::room::PALETTE_SIZE;

fn packet(peer: &str, data: &[u8]) -> Packet {
    Packet { peer: peer.to_string(), data: data.to_vec() }
}

fn connect(peer: &str) -> PeerEvent {
    PeerEvent { peer: peer.to_string(), state: PeerState::Connected }
}

fn disconnect(peer: &str) -> PeerEvent {
    PeerEvent { peer: peer.to_string(), state: PeerState::Disconnected }
}

fn ids(room: &Room) -> Vec<String> {
    room.members.iter().map(|m: &Member| m.id.clone()).collect()
}

#[test]
fn new_room_has_local_user_and_empty_log() {
    let room = Room::new("test");
    assert_eq!(ids(&room), vec!["You".to_string()]);
    assert!(room.messages.is_empty());
    assert!(room.is_window_open);
    assert!(room.members[0].color < PALETTE_SIZE);
}

#[test]
fn room_name_is_percent_encoded() {
    let room = Room::new("a b");
    assert_eq!(room.name, "a%20b");
    assert_eq!(room.room_url, "ws://127.0.0.1:3536/a%20b");
}

#[test]
fn join_empty_name_is_a_no_op() {
    let mut reg = Registry::new();
    assert_eq!(reg.join_or_focus(""), None);
    assert_eq!(reg.rooms.len(), 0);
}

#[test]
fn join_same_room_twice_creates_one_session() {
    let mut reg = Registry::new();
    assert_eq!(reg.join_or_focus("test"), Some(0));
    assert_eq!(reg.join_or_focus("test"), Some(0));
    assert_eq!(reg.rooms.len(), 1);
    assert!(reg.rooms[0].is_window_open);
}

#[test]
fn join_second_room_switches_focus() {
    let mut reg = Registry::new();
    reg.join_or_focus("one");
    assert_eq!(reg.join_or_focus("two"), Some(1));
    assert_eq!(reg.rooms.len(), 2);
    assert!(!reg.rooms[0].is_window_open);
    assert!(reg.rooms[1].is_window_open);
    assert_eq!(reg.join_or_focus("one"), Some(0));
    assert_eq!(reg.rooms.len(), 2);
    assert!(reg.rooms[0].is_window_open);
    assert!(!reg.rooms[1].is_window_open);
}

#[test]
fn at_most_one_session_active_after_any_sequence() {
    let mut reg = Registry::new();
    reg.join_or_focus("one");
    reg.join_or_focus("two");
    reg.join_or_focus("three");
    reg.focus(0);
    reg.join_or_focus("two");
    let active = reg.rooms.iter().filter(|r| r.is_window_open).count();
    assert_eq!(active, 1);
}

#[test]
fn connect_sends_greeting_to_that_peer_only() {
    let room = Room::new("test");
    let events = vec![connect("P1"), disconnect("P2")];
    let out = room.handle_peer_events(&events);
    assert_eq!(out.len(), 1);
    assert_eq!(out[0].peer, "P1");
    assert_eq!(out[0].payload, b"hello friend!".to_vec());
    assert!(room.messages.is_empty());
}

#[test]
fn chat_packet_adds_member_and_one_message() {
    let mut room = Room::new("test");
    room.accept_messages_at(&vec![packet("P1", b"hi")], "d1");
    assert_eq!(ids(&room), vec!["You".to_string(), "P1".to_string()]);
    assert!(room.members[1].color < PALETTE_SIZE);
    assert_eq!(room.messages.len(), 1);
    assert_eq!(room.messages[0].member_id, "P1");
    assert_eq!(room.messages[0].content, "hi");
    assert_eq!(room.messages[0].date, "d1");
}

#[test]
fn greeting_packet_adds_member_but_no_log_entry() {
    let mut room = Room::new("test");
    room.accept_messages_at(&vec![packet("P1", b"hello friend!")], "d1");
    assert_eq!(ids(&room), vec!["You".to_string(), "P1".to_string()]);
    assert!(room.messages.is_empty());
}

#[test]
fn many_packets_from_one_peer_make_one_member() {
    let mut room = Room::new("test");
    let batch = vec![packet("P1", b"a"), packet("P1", b"b"), packet("P1", b"c")];
    room.accept_messages_at(&batch, "d1");
    assert_eq!(ids(&room), vec!["You".to_string(), "P1".to_string()]);
    assert_eq!(room.messages.len(), 3);
}

#[test]
fn batch_shares_one_timestamp() {
    let mut room = Room::new("test");
    room.accept_messages_at(&vec![packet("P1", b"a"), packet("P2", b"b")], "tick");
    assert_eq!(room.messages[0].date, "tick");
    assert_eq!(room.messages[1].date, "tick");
}

#[test]
fn invalid_utf8_is_replaced_not_rejected() {
    let mut room = Room::new("test");
    room.accept_messages_at(&vec![packet("P1", &[0xff, 0xfe])], "d1");
    assert_eq!(room.messages.len(), 1);
    assert_eq!(room.messages[0].content, "\u{FFFD}\u{FFFD}");
}

#[test]
fn send_appends_echo_and_fans_out() {
    let mut room = Room::new("test");
    let connected = vec!["P1".to_string(), "P2".to_string()];
    let out = room.send_at("yo", "d2", &connected);
    assert_eq!(room.messages.len(), 1);
    assert_eq!(room.messages[0].member_id, "You");
    assert_eq!(room.messages[0].content, "yo");
    assert_eq!(out.len(), 2);
    assert_eq!(out[0].peer, "P1");
    assert_eq!(out[1].peer, "P2");
    assert_eq!(out[0].payload, b"yo".to_vec());
    assert_eq!(out[1].payload, b"yo".to_vec());
}

#[test]
fn send_empty_text_changes_nothing() {
    let mut room = Room::new("test");
    let connected = vec!["P1".to_string()];
    let out = room.send_at("", "d2", &connected);
    assert!(out.is_empty());
    assert!(room.messages.is_empty());
    let out2 = room.send("", &connected);
    assert!(out2.is_empty());
    assert!(room.messages.is_empty());
}

#[test]
fn session_scenario_roundtrip() {
    let mut reg = Registry::new();
    let idx = reg.join_or_focus("test").unwrap();
    let room = &mut reg.rooms[idx];
    assert_eq!(ids(room), vec!["You".to_string()]);
    assert!(room.messages.is_empty());

    let out = room.handle_peer_events(&vec![connect("P1")]);
    assert_eq!(out.len(), 1);
    assert_eq!(out[0].peer, "P1");
    assert!(room.messages.is_empty());

    room.accept_messages_at(&vec![packet("P1", b"hi")], "d1");
    assert_eq!(ids(room), vec!["You".to_string(), "P1".to_string()]);
    assert_eq!(room.messages.len(), 1);

    let sends: Vec<Outbound> = room.send_at("yo", "d2", &vec!["P1".to_string()]);
    assert_eq!(room.messages.len(), 2);
    assert_eq!(room.messages[0].member_id, "P1");
    assert_eq!(room.messages[0].content, "hi");
    assert_eq!(room.messages[1].member_id, "You");
    assert_eq!(room.messages[1].content, "yo");
    assert_eq!(sends.len(), 1);
    assert_eq!(sends[0].peer, "P1");
    assert_eq!(sends[0].payload, b"yo".to_vec());
}

#[test]
fn reconnect_does_not_duplicate_member() {
    let mut room = Room::new("test");
    room.handle_peer_events(&vec![connect("P1")]);
    room.accept_messages_at(&vec![packet("P1", b"hi")], "d1");
    let color_before = room.members[1].color;
    room.handle_peer_events(&vec![disconnect("P1")]);
    room.handle_peer_events(&vec![connect("P1")]);
    room.accept_messages_at(&vec![packet("P1", b"hi")], "d2");
    assert_eq!(ids(&room), vec!["You".to_string(), "P1".to_string()]);
    assert_eq!(room.members[1].color, color_before);
    assert_eq!(room.messages.len(), 2);
    assert_eq!(room.messages[1].content, "hi");
    assert_eq!(room.messages[1].date, "d2");
}

#[test]
fn disconnect_keeps_member_and_history() {
    let mut room = Room::new("test");
    room.accept_messages_at(&vec![packet("P1", b"hi")], "d1");
    let out = room.handle_peer_events(&vec![disconnect("P1")]);
    assert!(out.is_empty());
    assert_eq!(ids(&room), vec!["You".to_string(), "P1".to_string()]);
    assert_eq!(room.messages.len(), 1);
}

#[test]
fn self_clocked_ingest_and_send_record_some_timestamp() {
    let mut room = Room::new("test");
    room.accept_messages(&vec![packet("P1", b"hi")]);
    assert_eq!(room.messages.len(), 1);
    assert!(!room.messages[0].date.is_empty());
    let out = room.send("yo", &vec![]);
    assert!(out.is_empty());
    assert_eq!(room.messages.len(), 2);
    assert!(!room.messages[1].date.is_empty());
}
