//! The wire codec seen from outside: parsing, writing, round trips.

use tm_chat_server::commands::Command;
use tm_chat_server::commands::ConnectionCommand;
use tm_chat_server::commands::GetUsersRequest;
use tm_chat_server::commands::GetUsersResponse;
use tm_chat_server::commands::SendMessageRequest;
use tm_chat_server::commands::SendMessageResponse;
use tm_chat_server::commands::SwitchRoomRequest;
use tm_chat_server::json::terminated_line;

#[test]
fn parse_join_plain() {
    let c = ConnectionCommand::parse("{\"name\":\"alice\",\"room\":\"lobby\"}").unwrap();
    assert_eq!(c.name, "alice");
    assert_eq!(c.room, "lobby");
}

#[test]
fn parse_join_with_whitespace_and_newline() {
    let c = ConnectionCommand::parse(" {\n \"name\" : \"a\" ,\t\"room\" : \"b\" }\n").unwrap();
    assert_eq!(c.name, "a");
    assert_eq!(c.room, "b");
}

#[test]
fn parse_join_field_order_free() {
    let c = ConnectionCommand::parse("{\"room\":\"lobby\",\"name\":\"alice\"}").unwrap();
    assert_eq!(c.name, "alice");
    assert_eq!(c.room, "lobby");
}

#[test]
fn parse_join_missing_field() {
    assert!(ConnectionCommand::parse("{\"name\":\"alice\"}").is_none());
    assert!(ConnectionCommand::parse("{\"room\":\"lobby\"}").is_none());
    assert!(ConnectionCommand::parse("{}").is_none());
}

#[test]
fn parse_malformed_payloads() {
    assert!(ConnectionCommand::parse("").is_none());
    assert!(ConnectionCommand::parse("hello").is_none());
    assert!(ConnectionCommand::parse("{\"name\":\"a\",\"room\":\"b\"").is_none());
    assert!(ConnectionCommand::parse("{\"name\":\"a\" \"room\":\"b\"}").is_none());
    assert!(ConnectionCommand::parse("{\"name\":\"a\",\"room\":\"b\"} x").is_none());
    assert!(ConnectionCommand::parse("[\"name\",\"room\"]").is_none());
    assert!(Command::parse("{\"commandType\":12}").is_none());
    assert!(Command::parse("{commandType:\"SendMessage\"}").is_none());
}

#[test]
fn parse_command_type() {
    let c = Command::parse("{\"commandType\":\"SendMessage\",\"message\":\"hi\"}").unwrap();
    assert_eq!(c.command_type, "SendMessage");
    let c = Command::parse("{\"commandType\":\"Bogus\"}").unwrap();
    assert_eq!(c.command_type, "Bogus");
    assert!(Command::parse("{\"message\":\"hi\"}").is_none());
}

#[test]
fn parse_send_message_request() {
    let r = SendMessageRequest::parse("{\"commandType\":\"SendMessage\",\"message\":\"hi\"}")
        .unwrap();
    assert_eq!(r.command_type, "SendMessage");
    assert_eq!(r.message, "hi");
    assert!(SendMessageRequest::parse("{\"commandType\":\"SendMessage\"}").is_none());
}

#[test]
fn parse_room_requests() {
    let r = GetUsersRequest::parse("{\"commandType\":\"GetUsers\",\"room\":\"den\"}").unwrap();
    assert_eq!(r.command_type, "GetUsers");
    assert_eq!(r.room, "den");
    let r = SwitchRoomRequest::parse("{\"commandType\":\"SwitchRoom\",\"room\":\"den\"}").unwrap();
    assert_eq!(r.command_type, "SwitchRoom");
    assert_eq!(r.room, "den");
    assert!(SwitchRoomRequest::parse("{\"commandType\":\"SwitchRoom\"}").is_none());
}

#[test]
fn write_join_exact() {
    let c = ConnectionCommand {
        name: String::from("alice"),
        room: String::from("lobby"),
    };
    assert_eq!(c.to_json(), "{\"name\":\"alice\",\"room\":\"lobby\"}");
}

#[test]
fn write_send_message_response_exact() {
    let r = SendMessageResponse {
        command_type: String::from("SendMessage"),
        message: String::from("alice: hi"),
    };
    assert_eq!(
        r.to_json(),
        "{\"commandType\":\"SendMessage\",\"message\":\"alice: hi\"}"
    );
}

#[test]
fn write_get_users_response_exact() {
    let r = GetUsersResponse {
        command_type: String::from("GetUsers"),
        users: vec![String::from("a"), String::from("b")],
    };
    assert_eq!(
        r.to_json(),
        "{\"commandType\":\"GetUsers\",\"users\":[\"a\",\"b\"]}"
    );
    let empty = GetUsersResponse {
        command_type: String::from("GetUsers"),
        users: vec![],
    };
    assert_eq!(empty.to_json(), "{\"commandType\":\"GetUsers\",\"users\":[]}");
}

#[test]
fn round_trip_join_with_escapes() {
    let c = ConnectionCommand {
        name: String::from("a\"b\\c\nd\te\rf"),
        room: String::from("lob by"),
    };
    let json = c.to_json();
    assert_eq!(
        json,
        "{\"name\":\"a\\\"b\\\\c\\nd\\te\\rf\",\"room\":\"lob by\"}"
    );
    let back = ConnectionCommand::parse(&json).unwrap();
    assert_eq!(back, c);
}

#[test]
fn round_trip_send_message() {
    let r = SendMessageRequest {
        command_type: String::from("SendMessage"),
        message: String::from("hello, \"world\""),
    };
    let back = SendMessageRequest::parse(&r.to_json()).unwrap();
    assert_eq!(back, r);
}

#[test]
fn round_trip_get_users_request() {
    let r = GetUsersRequest {
        command_type: String::from("GetUsers"),
        room: String::from("den"),
    };
    let back = GetUsersRequest::parse(&r.to_json()).unwrap();
    assert_eq!(back, r);
}

#[test]
fn round_trip_switch_room() {
    let r = SwitchRoomRequest {
        command_type: String::from("SwitchRoom"),
        room: String::from("a\\b"),
    };
    let back = SwitchRoomRequest::parse(&r.to_json()).unwrap();
    assert_eq!(back, r);
}

#[test]
fn parse_accepts_common_escapes() {
    let c = ConnectionCommand::parse(
        "{\"name\":\"a\\\"b\\\\c\\/d\\ne\\tf\\rg\\bh\\fi\",\"room\":\"r\"}",
    )
    .unwrap();
    assert_eq!(c.name, "a\"b\\c/d\ne\tf\rg\u{8}h\u{c}i");
    assert!(ConnectionCommand::parse("{\"name\":\"a\\qb\",\"room\":\"r\"}").is_none());
}

#[test]
fn written_payloads_are_json_for_serde_too() {
    let c = ConnectionCommand {
        name: String::from("al\"ice\n"),
        room: String::from("lobby"),
    };
    let v: serde_json::Value = serde_json::from_str(&c.to_json()).unwrap();
    assert_eq!(v["name"], "al\"ice\n");
    assert_eq!(v["room"], "lobby");
    let r = GetUsersResponse {
        command_type: String::from("GetUsers"),
        users: vec![String::from("a"), String::from("b")],
    };
    let v: serde_json::Value = serde_json::from_str(&r.to_json()).unwrap();
    assert_eq!(v["commandType"], "GetUsers");
    assert_eq!(v["users"][0], "a");
    assert_eq!(v["users"][1], "b");
}

#[test]
fn parse_join_empty_strings() {
    let c = ConnectionCommand::parse("{\"name\":\"\",\"room\":\"\"}").unwrap();
    assert_eq!(c.name, "");
    assert_eq!(c.room, "");
    let back = ConnectionCommand::parse(&c.to_json()).unwrap();
    assert_eq!(back, c);
}

#[test]
fn parse_join_first_field_wins_on_repeat() {
    let c = ConnectionCommand::parse("{\"name\":\"a\",\"name\":\"b\",\"room\":\"r\"}").unwrap();
    assert_eq!(c.name, "a");
}

#[test]
fn parse_join_tolerates_extra_string_fields() {
    let c = ConnectionCommand::parse("{\"x\":\"y\",\"name\":\"a\",\"room\":\"r\"}").unwrap();
    assert_eq!(c.name, "a");
    assert_eq!(c.room, "r");
    // A field of any other value shape is outside the payload grammar.
    assert!(ConnectionCommand::parse("{\"name\":\"a\",\"room\":\"r\",\"n\":5}").is_none());
}

#[test]
fn terminated_line_appends_newline() {
    assert_eq!(terminated_line("abc"), "abc\n");
    assert_eq!(terminated_line(""), "\n");
}
