//! The typed commands of the protocol and their wire forms.
//!
//! Each shape is a struct of plain strings. Parsing is stated through the
//! spec functions of `json`: a payload parses as a shape exactly when the
//! payload grammar accepts it and the shape's fields are present. Writing
//! a shape produces the field list in declaration order, camelCase keys,
//! no whitespace.

use vstd::prelude::*;
use crate::json::parse_payload;
use crate::json::field_first;
use crate::json::ser_obj2;
use crate::json::ser_obj_str_list;
use crate::json::parse_payload_fields;
use crate::json::field_value;
use crate::json::ser_string_into;
use crate::json::string_of;

verus! {

// ---------------------------------------------------------------------------
// Wire shapes
// ---------------------------------------------------------------------------

/// The join handshake: binds a connection to a display name and a room.
/// It carries no `commandType` tag.
#[derive(Debug, PartialEq, Eq)]
pub struct ConnectionCommand {
    pub name: String,
    pub room: String,
}

/// The discriminator common to every tagged payload.
#[derive(Debug, PartialEq, Eq)]
pub struct Command {
    pub command_type: String,
}

/// A client asks that a message be fanned out to its room.
#[derive(Debug, PartialEq, Eq)]
pub struct SendMessageRequest {
    pub command_type: String,
    pub message: String,
}

/// The fan-out line the server writes back, message rewritten as
/// `"{name}: {message}"`.
#[derive(Debug, PartialEq, Eq)]
pub struct SendMessageResponse {
    pub command_type: String,
    pub message: String,
}

/// A client asks for the membership snapshot of a room.
#[derive(Debug, PartialEq, Eq)]
pub struct GetUsersRequest {
    pub command_type: String,
    pub room: String,
}

/// A client asks to move to another room.
#[derive(Debug, PartialEq, Eq)]
pub struct SwitchRoomRequest {
    pub command_type: String,
    pub room: String,
}

/// The snapshot written back to the requester alone.
#[derive(Debug, PartialEq, Eq)]
pub struct GetUsersResponse {
    pub command_type: String,
    pub users: Vec<String>,
}

// ---------------------------------------------------------------------------
// What each shape means on the wire
// ---------------------------------------------------------------------------

/// A payload read as a join: the `name` and `room` fields of its object.
pub open spec fn spec_parse_join(t: Seq<char>) -> Option<(Seq<char>, Seq<char>)> {
    match parse_payload(t) {
        Some(ps) => match (field_first(ps, "name"@), field_first(ps, "room"@)) {
            (Some(n), Some(r)) => Some((n, r)),
            _ => None,
        },
        None => None,
    }
}

/// A payload's discriminator: its `commandType` field.
pub open spec fn spec_parse_command_type(t: Seq<char>) -> Option<Seq<char>> {
    match parse_payload(t) {
        Some(ps) => field_first(ps, "commandType"@),
        None => None,
    }
}

/// A tagged payload with one further field: the discriminator and that
/// field's value.
pub open spec fn spec_parse_tagged(t: Seq<char>, field: Seq<char>) -> Option<
    (Seq<char>, Seq<char>),
> {
    match parse_payload(t) {
        Some(ps) => match (field_first(ps, "commandType"@), field_first(ps, field)) {
            (Some(ct), Some(v)) => Some((ct, v)),
            _ => None,
        },
        None => None,
    }
}

/// The wire form of a join.
pub open spec fn ser_join(name: Seq<char>, room: Seq<char>) -> Seq<char> {
    ser_obj2("name"@, name, "room"@, room)
}

/// The wire form of a tagged payload whose second field is `message`.
pub open spec fn ser_message(ct: Seq<char>, message: Seq<char>) -> Seq<char> {
    ser_obj2("commandType"@, ct, "message"@, message)
}

/// The wire form of a tagged payload whose second field is `room`.
pub open spec fn ser_room(ct: Seq<char>, room: Seq<char>) -> Seq<char> {
    ser_obj2("commandType"@, ct, "room"@, room)
}

/// The wire form of a users snapshot.
pub open spec fn ser_users(ct: Seq<char>, users: Seq<Seq<char>>) -> Seq<char> {
    ser_obj_str_list("commandType"@, ct, "users"@, users)
}

// ---------------------------------------------------------------------------
// Executable parsing
// ---------------------------------------------------------------------------

/// Parse the discriminator plus one named field.
fn parse_tagged(payload: &str, field: &str) -> (r: Option<(String, String)>)
    ensures
        match r {
            Some(p) => spec_parse_tagged(payload@, field@) == Some((p.0@, p.1@)),
            None => spec_parse_tagged(payload@, field@) is None,
        },
{
    match parse_payload_fields(payload) {
        Some(fs) => match field_value(&fs, "commandType") {
            Some(ct) => match field_value(&fs, field) {
                Some(v) => Some((ct, v)),
                None => None,
            },
            None => None,
        },
        None => None,
    }
}

impl ConnectionCommand {
    /// Read a payload as a join handshake.
    pub fn parse(payload: &str) -> (r: Option<ConnectionCommand>)
        ensures
            match r {
                Some(c) => spec_parse_join(payload@) == Some((c.name@, c.room@)),
                None => spec_parse_join(payload@) is None,
            },
    {
        match parse_payload_fields(payload) {
            Some(fs) => match field_value(&fs, "name") {
                Some(n) => match field_value(&fs, "room") {
                    Some(r) => Some(ConnectionCommand { name: n, room: r }),
                    None => None,
                },
                None => None,
            },
            None => None,
        }
    }

    /// Write the join handshake to its wire form.
    pub fn to_json(&self) -> (r: String)
        ensures
            r@ == ser_join(self.name@, self.room@),
    {
        ser_obj2_x("name", self.name.as_str(), "room", self.room.as_str())
    }
}

impl Command {
    /// Read a payload's discriminator.
    pub fn parse(payload: &str) -> (r: Option<Command>)
        ensures
            match r {
                Some(c) => spec_parse_command_type(payload@) == Some(c.command_type@),
                None => spec_parse_command_type(payload@) is None,
            },
    {
        match parse_payload_fields(payload) {
            Some(fs) => match field_value(&fs, "commandType") {
                Some(ct) => Some(Command { command_type: ct }),
                None => None,
            },
            None => None,
        }
    }
}

impl SendMessageRequest {
    /// Read a payload as a send-message request.
    pub fn parse(payload: &str) -> (r: Option<SendMessageRequest>)
        ensures
            match r {
                Some(c) => spec_parse_tagged(payload@, "message"@) == Some(
                    (c.command_type@, c.message@),
                ),
                None => spec_parse_tagged(payload@, "message"@) is None,
            },
    {
        match parse_tagged(payload, "message") {
            Some(p) => Some(SendMessageRequest { command_type: p.0, message: p.1 }),
            None => None,
        }
    }

    /// Write the request to its wire form.
    pub fn to_json(&self) -> (r: String)
        ensures
            r@ == ser_message(self.command_type@, self.message@),
    {
        ser_obj2_x("commandType", self.command_type.as_str(), "message", self.message.as_str())
    }
}

impl SendMessageResponse {
    /// Write the fan-out line to its wire form.
    pub fn to_json(&self) -> (r: String)
        ensures
            r@ == ser_message(self.command_type@, self.message@),
    {
        ser_obj2_x("commandType", self.command_type.as_str(), "message", self.message.as_str())
    }
}

impl GetUsersRequest {
    /// Read a payload as a users request.
    pub fn parse(payload: &str) -> (r: Option<GetUsersRequest>)
        ensures
            match r {
                Some(c) => spec_parse_tagged(payload@, "room"@) == Some(
                    (c.command_type@, c.room@),
                ),
                None => spec_parse_tagged(payload@, "room"@) is None,
            },
    {
        match parse_tagged(payload, "room") {
            Some(p) => Some(GetUsersRequest { command_type: p.0, room: p.1 }),
            None => None,
        }
    }

    /// Write the request to its wire form.
    pub fn to_json(&self) -> (r: String)
        ensures
            r@ == ser_room(self.command_type@, self.room@),
    {
        ser_obj2_x("commandType", self.command_type.as_str(), "room", self.room.as_str())
    }
}

impl SwitchRoomRequest {
    /// Read a payload as a room switch.
    pub fn parse(payload: &str) -> (r: Option<SwitchRoomRequest>)
        ensures
            match r {
                Some(c) => spec_parse_tagged(payload@, "room"@) == Some(
                    (c.command_type@, c.room@),
                ),
                None => spec_parse_tagged(payload@, "room"@) is None,
            },
    {
        match parse_tagged(payload, "room") {
            Some(p) => Some(SwitchRoomRequest { command_type: p.0, room: p.1 }),
            None => None,
        }
    }

    /// Write the request to its wire form.
    pub fn to_json(&self) -> (r: String)
        ensures
            r@ == ser_room(self.command_type@, self.room@),
    {
        ser_obj2_x("commandType", self.command_type.as_str(), "room", self.room.as_str())
    }
}

impl GetUsersResponse {
    /// Write the snapshot to its wire form.
    pub fn to_json(&self) -> (r: String)
        ensures
            r@ == ser_users(self.command_type@, self.users.deep_view()),
    {
        let mut out: Vec<char> = Vec::new();
        out.push('{');
        ser_string_into(&mut out, "commandType");
        out.push(':');
        ser_string_into(&mut out, self.command_type.as_str());
        out.push(',');
        ser_string_into(&mut out, "users");
        out.push(':');
        out.push('[');
        let ghost head = out@;
        let mut i: usize = 0;
        while i < self.users.len()
            invariant
                i <= self.users@.len(),
                out@ == head + crate::json::ser_str_list(self.users.deep_view().take(i as int)),
            decreases self.users@.len() - i,
        {
            let ghost prev = self.users.deep_view().take(i as int);
            if i > 0 {
                out.push(',');
            }
            ser_string_into(&mut out, self.users[i].as_str());
            proof {
                assert(self.users.deep_view()[i as int] == self.users@[i as int]@);
                lemma_ser_str_list_snoc(prev, self.users.deep_view()[i as int]);
                assert(self.users.deep_view().take(i as int + 1) =~= prev.push(
                    self.users.deep_view()[i as int],
                ));
                assert(out@ =~= head + crate::json::ser_str_list(
                    self.users.deep_view().take(i as int + 1),
                ));
            }
            i = i + 1;
        }
        out.push(']');
        out.push('}');
        proof {
            assert(self.users.deep_view().take(self.users@.len() as int) =~= self.users.deep_view());
            assert(out@ =~= ser_users(self.command_type@, self.users.deep_view()));
        }
        string_of(&out)
    }
}

// ---------------------------------------------------------------------------
// Round-trip laws
// ---------------------------------------------------------------------------

/// Law: writing a join handshake and parsing the text back yields the
/// same name and room, whatever characters they hold.
pub proof fn lemma_join_round_trip(name: Seq<char>, room: Seq<char>)
    ensures
        spec_parse_join(ser_join(name, room)) == Some((name, room)),
{
    crate::json::lemma_obj2_round_trip("name"@, name, "room"@, room);
    let ps = seq![("name"@, name), ("room"@, room)];
    assert(field_first(ps, "name"@) == Some(name));
    reveal_strlit("name");
    reveal_strlit("room");
    assert("name"@[0] == 'n' && "room"@[0] == 'r');
    assert("name"@ != "room"@);
    assert(ps.drop_first() =~= seq![("room"@, room)]);
    assert(field_first(ps.drop_first(), "room"@) == Some(room));
    assert(field_first(ps, "room"@) == Some(room));
}

/// Law: writing a tagged message payload and parsing the text back
/// yields the same discriminator and message.
pub proof fn lemma_message_round_trip(ct: Seq<char>, message: Seq<char>)
    ensures
        spec_parse_tagged(ser_message(ct, message), "message"@) == Some((ct, message)),
        spec_parse_command_type(ser_message(ct, message)) == Some(ct),
{
    crate::json::lemma_obj2_round_trip("commandType"@, ct, "message"@, message);
    let ps = seq![("commandType"@, ct), ("message"@, message)];
    assert(field_first(ps, "commandType"@) == Some(ct));
    reveal_strlit("commandType");
    reveal_strlit("message");
    assert("commandType"@.len() != "message"@.len());
    assert(ps.drop_first() =~= seq![("message"@, message)]);
    assert(field_first(ps.drop_first(), "message"@) == Some(message));
    assert(field_first(ps, "message"@) == Some(message));
}

/// Law: writing a tagged room payload (a users request or a room switch)
/// and parsing the text back yields the same discriminator and room.
pub proof fn lemma_room_round_trip(ct: Seq<char>, room: Seq<char>)
    ensures
        spec_parse_tagged(ser_room(ct, room), "room"@) == Some((ct, room)),
        spec_parse_command_type(ser_room(ct, room)) == Some(ct),
{
    crate::json::lemma_obj2_round_trip("commandType"@, ct, "room"@, room);
    let ps = seq![("commandType"@, ct), ("room"@, room)];
    assert(field_first(ps, "commandType"@) == Some(ct));
    reveal_strlit("commandType");
    reveal_strlit("room");
    assert("commandType"@.len() != "room"@.len());
    assert(ps.drop_first() =~= seq![("room"@, room)]);
    assert(field_first(ps.drop_first(), "room"@) == Some(room));
    assert(field_first(ps, "room"@) == Some(room));
}

/// Write any two-string-field object.
fn ser_obj2_x(k1: &str, v1: &str, k2: &str, v2: &str) -> (r: String)
    ensures
        r@ == ser_obj2(k1@, v1@, k2@, v2@),
{
    let mut out: Vec<char> = Vec::new();
    out.push('{');
    ser_string_into(&mut out, k1);
    out.push(':');
    ser_string_into(&mut out, v1);
    out.push(',');
    ser_string_into(&mut out, k2);
    out.push(':');
    ser_string_into(&mut out, v2);
    out.push('}');
    proof {
        assert(out@ =~= ser_obj2(k1@, v1@, k2@, v2@));
    }
    string_of(&out)
}

/// Extending a list of strings extends its serialized items.
proof fn lemma_ser_str_list_snoc(items: Seq<Seq<char>>, x: Seq<char>)
    ensures
        crate::json::ser_str_list(items.push(x)) == if items.len() == 0 {
            crate::json::ser_string(x)
        } else {
            crate::json::ser_str_list(items) + seq![','] + crate::json::ser_string(x)
        },
    decreases items.len(),
{
    if items.len() == 0 {
        assert(items.push(x)[0] == x);
        assert(items.push(x).len() == 1);
    } else {
        lemma_ser_str_list_snoc(items.drop_first(), x);
        assert(items.push(x)[0] == items[0]);
        assert(items.push(x).drop_first() =~= items.drop_first().push(x));
        if items.len() == 1 {
            assert(crate::json::ser_str_list(items.push(x)) =~= crate::json::ser_str_list(items)
                + seq![','] + crate::json::ser_string(x));
        } else {
            assert(crate::json::ser_str_list(items.push(x)) =~= crate::json::ser_str_list(items)
                + seq![','] + crate::json::ser_string(x));
        }
    }
}

} // verus!
