//! The room registry and the poll-loop handlers seen from outside.

use tm_chat_server::registry::Registry;
use tm_chat_server::settings::Settings;
use tm_chat_server::state::StreamState;

fn join(name: &str, room: &str) -> String {
    format!("{{\"name\":\"{}\",\"room\":\"{}\"}}", name, room)
}

fn send_message(message: &str) -> String {
    format!(
        "{{\"commandType\":\"SendMessage\",\"message\":\"{}\"}}",
        message
    )
}

fn get_users(room: &str) -> String {
    format!("{{\"commandType\":\"GetUsers\",\"room\":\"{}\"}}", room)
}

fn switch_room(room: &str) -> String {
    format!("{{\"commandType\":\"SwitchRoom\",\"room\":\"{}\"}}", room)
}

#[test]
fn join_moves_connection_and_notifies_prior_members() {
    let mut st = StreamState::new();
    st.received_unattached_stream(10);
    st.received_unattached_stream(11);
    st.received_unattached_stream(12);
    // First join creates the room: nobody to notify.
    let out = st.handle_unassigned_payload(0, &join("alice", "lobby"));
    assert!(out.is_empty());
    assert_eq!(st.unassigned, vec![11, 12]);
    // Second join: the one prior member is notified, the joiner is not.
    let out = st.handle_unassigned_payload(0, &join("bob", "lobby"));
    assert_eq!(out.len(), 1);
    assert_eq!(out[0].conn, 10);
    assert_eq!(out[0].line, "bob joined the room");
    // Third join: both prior members are notified, in membership order.
    let out = st.handle_unassigned_payload(0, &join("carol", "lobby"));
    assert_eq!(out.len(), 2);
    assert_eq!(out[0].conn, 10);
    assert_eq!(out[1].conn, 11);
    assert_eq!(out[0].line, "carol joined the room");
    assert!(st.unassigned.is_empty());
}

#[test]
fn join_payload_that_does_not_parse_keeps_connection_pooled() {
    let mut st = StreamState::new();
    st.received_unattached_stream(7);
    let out = st.handle_unassigned_payload(0, "{\"commandType\":\"SendMessage\"}");
    assert!(out.is_empty());
    assert_eq!(st.unassigned, vec![7]);
    let out = st.handle_unassigned_payload(0, "garbage");
    assert!(out.is_empty());
    assert_eq!(st.unassigned, vec![7]);
    // The client may retry and still join.
    let out = st.handle_unassigned_payload(0, &join("alice", "lobby"));
    assert!(out.is_empty());
    assert!(st.unassigned.is_empty());
}

#[test]
fn send_message_reaches_the_whole_room_and_only_it() {
    let mut st = StreamState::new();
    st.received_unattached_stream(1);
    st.received_unattached_stream(2);
    st.received_unattached_stream(3);
    st.handle_unassigned_payload(0, &join("alice", "lobby"));
    st.handle_unassigned_payload(0, &join("bob", "lobby"));
    st.handle_unassigned_payload(0, &join("eve", "den"));
    let out = st.handle_member_payload("bob", "lobby", &send_message("hi"));
    // Sender included, member of the other room not.
    assert_eq!(out.len(), 2);
    assert_eq!(out[0].conn, 1);
    assert_eq!(out[1].conn, 2);
    for o in &out {
        assert_eq!(
            o.line,
            "{\"commandType\":\"SendMessage\",\"message\":\"bob: hi\"}"
        );
    }
}

#[test]
fn malformed_payload_from_member_changes_nothing() {
    let mut st = StreamState::new();
    st.received_unattached_stream(1);
    st.handle_unassigned_payload(0, &join("alice", "lobby"));
    for bad in [
        "",
        "{",
        "not json",
        "{\"commandType\":\"Bogus\"}",
        "{\"commandType\":\"SendMessage\"}",
        "{\"commandType\":\"GetUsers\"}",
        "{\"commandType\":\"SwitchRoom\"}",
    ] {
        let out = st.handle_member_payload("alice", "lobby", bad);
        assert!(out.is_empty());
    }
    // The room is as it was.
    let out = st.handle_member_payload("alice", "lobby", &get_users("lobby"));
    assert_eq!(out.len(), 1);
    assert_eq!(out[0].line, "{\"commandType\":\"GetUsers\",\"users\":[\"alice\"]}");
}

#[test]
fn get_users_answers_the_requester_alone() {
    let mut st = StreamState::new();
    st.received_unattached_stream(1);
    st.received_unattached_stream(2);
    st.handle_unassigned_payload(0, &join("alice", "lobby"));
    st.handle_unassigned_payload(0, &join("bob", "lobby"));
    let out = st.handle_member_payload("bob", "lobby", &get_users("lobby"));
    assert_eq!(out.len(), 1);
    assert_eq!(out[0].conn, 2);
    assert_eq!(
        out[0].line,
        "{\"commandType\":\"GetUsers\",\"users\":[\"alice\",\"bob\"]}"
    );
}

#[test]
fn get_users_may_ask_about_another_room() {
    let mut st = StreamState::new();
    st.received_unattached_stream(1);
    st.received_unattached_stream(2);
    st.handle_unassigned_payload(0, &join("alice", "lobby"));
    st.handle_unassigned_payload(0, &join("eve", "den"));
    let out = st.handle_member_payload("eve", "den", &get_users("lobby"));
    assert_eq!(out.len(), 1);
    assert_eq!(out[0].conn, 2);
    assert_eq!(out[0].line, "{\"commandType\":\"GetUsers\",\"users\":[\"alice\"]}");
}

#[test]
fn get_users_of_absent_room_answers_nothing() {
    let mut st = StreamState::new();
    st.received_unattached_stream(1);
    st.handle_unassigned_payload(0, &join("alice", "lobby"));
    let out = st.handle_member_payload("alice", "lobby", &get_users("nowhere"));
    assert!(out.is_empty());
}

#[test]
fn switch_room_moves_the_member() {
    let mut st = StreamState::new();
    st.received_unattached_stream(1);
    st.received_unattached_stream(2);
    st.handle_unassigned_payload(0, &join("alice", "lobby"));
    st.handle_unassigned_payload(0, &join("bob", "lobby"));
    let out = st.handle_member_payload("alice", "lobby", &switch_room("den"));
    // A fresh room: nobody there to notify.
    assert!(out.is_empty());
    let out = st.handle_member_payload("bob", "lobby", &get_users("lobby"));
    assert_eq!(out[0].line, "{\"commandType\":\"GetUsers\",\"users\":[\"bob\"]}");
    let out = st.handle_member_payload("alice", "den", &get_users("den"));
    assert_eq!(out[0].line, "{\"commandType\":\"GetUsers\",\"users\":[\"alice\"]}");
}

#[test]
fn switch_into_occupied_room_notifies_its_members() {
    let mut st = StreamState::new();
    st.received_unattached_stream(1);
    st.received_unattached_stream(2);
    st.handle_unassigned_payload(0, &join("alice", "lobby"));
    st.handle_unassigned_payload(0, &join("eve", "den"));
    let out = st.handle_member_payload("alice", "lobby", &switch_room("den"));
    assert_eq!(out.len(), 1);
    assert_eq!(out[0].conn, 2);
    assert_eq!(out[0].line, "alice joined the room");
}

#[test]
fn switch_room_for_an_absent_member_is_a_no_op() {
    let mut st = StreamState::new();
    st.received_unattached_stream(1);
    st.handle_unassigned_payload(0, &join("alice", "lobby"));
    let out = st.handle_member_payload("ghost", "lobby", &switch_room("den"));
    assert!(out.is_empty());
    let out = st.handle_member_payload("ghost", "nowhere", &switch_room("den"));
    assert!(out.is_empty());
    // Nothing moved: the lobby still holds alice alone, den does not exist.
    let out = st.handle_member_payload("alice", "lobby", &get_users("lobby"));
    assert_eq!(out[0].line, "{\"commandType\":\"GetUsers\",\"users\":[\"alice\"]}");
    let out = st.handle_member_payload("alice", "lobby", &get_users("den"));
    assert!(out.is_empty());
}

#[test]
fn two_members_may_share_a_name() {
    let mut st = StreamState::new();
    st.received_unattached_stream(1);
    st.received_unattached_stream(2);
    st.handle_unassigned_payload(0, &join("alice", "lobby"));
    st.handle_unassigned_payload(0, &join("alice", "lobby"));
    // The switch moves the first of the two.
    let out = st.handle_member_payload("alice", "lobby", &switch_room("den"));
    assert!(out.is_empty());
    let out = st.handle_member_payload("alice", "lobby", &get_users("lobby"));
    assert_eq!(out[0].conn, 2);
    assert_eq!(out[0].line, "{\"commandType\":\"GetUsers\",\"users\":[\"alice\"]}");
}

#[test]
fn registry_broadcast_and_snapshot() {
    let mut reg = Registry::new();
    let notices = reg.add_member("lobby", 1, String::from("alice"));
    assert!(notices.is_empty());
    let notices = reg.add_member("lobby", 2, String::from("bob"));
    assert_eq!(notices.len(), 1);
    assert_eq!(notices[0].conn, 1);
    assert_eq!(notices[0].line, "bob joined the room");
    let out = reg.broadcast("lobby", "hello");
    assert_eq!(out.len(), 2);
    assert_eq!(out[0].conn, 1);
    assert_eq!(out[1].conn, 2);
    assert_eq!(out[0].line, "hello");
    assert!(reg.broadcast("nowhere", "hello").is_empty());
    let users = reg.snapshot_users("lobby").unwrap();
    assert_eq!(users, vec![String::from("alice"), String::from("bob")]);
    assert!(reg.snapshot_users("nowhere").is_none());
    let removed = reg.remove_member("lobby", "alice").unwrap();
    assert_eq!(removed.conn, 1);
    assert_eq!(removed.name, "alice");
    assert!(reg.remove_member("lobby", "alice").is_none());
}

#[test]
fn full_scenario_two_clients() {
    let mut st = StreamState::new();
    st.received_unattached_stream(1);
    st.received_unattached_stream(2);
    // A joins lobby, then B joins lobby: A hears of B.
    let out = st.handle_unassigned_payload(0, &join("A", "lobby"));
    assert!(out.is_empty());
    let out = st.handle_unassigned_payload(0, &join("B", "lobby"));
    assert_eq!(out.len(), 1);
    assert_eq!(out[0].conn, 1);
    assert_eq!(out[0].line, "B joined the room");
    // B says hi: both A and B receive it.
    let out = st.handle_member_payload("B", "lobby", &send_message("hi"));
    assert_eq!(out.len(), 2);
    assert_eq!(out[0].conn, 1);
    assert_eq!(out[1].conn, 2);
    assert_eq!(
        out[0].line,
        "{\"commandType\":\"SendMessage\",\"message\":\"B: hi\"}"
    );
    assert_eq!(out[0].line, out[1].line);
    // A moves to den.
    let out = st.handle_member_payload("A", "lobby", &switch_room("den"));
    assert!(out.is_empty());
    // B's lobby snapshot holds B alone; A's den snapshot holds A alone.
    let out = st.handle_member_payload("B", "lobby", &get_users("lobby"));
    assert_eq!(out.len(), 1);
    assert_eq!(out[0].conn, 2);
    assert_eq!(out[0].line, "{\"commandType\":\"GetUsers\",\"users\":[\"B\"]}");
    let out = st.handle_member_payload("A", "den", &get_users("den"));
    assert_eq!(out.len(), 1);
    assert_eq!(out[0].conn, 1);
    assert_eq!(out[0].line, "{\"commandType\":\"GetUsers\",\"users\":[\"A\"]}");
}

#[test]
fn settings_hold_the_port() {
    let s = Settings {
        socket_server_port: 9000,
        port: 8080,
    };
    assert_eq!(s.port, 8080);
    assert_eq!(s.socket_server_port, 9000);
}
