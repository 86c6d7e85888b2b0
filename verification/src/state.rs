//! The poll-loop state machine.
//!
//! The transport layer owns the sockets and the threads; this module owns
//! every decision. Each poll cycle the loop outside hands in, one call at
//! a time: a newly accepted connection (`received_unattached_stream`), a
//! payload read from an unassigned connection (`handle_unassigned_payload`),
//! or a payload read from a room member (`handle_member_payload`). Each
//! call returns the lines owed to connections; the loop writes them and
//! keeps no state of its own beyond the map from connection identifier to
//! socket.
//!
//! Failure semantics: a payload that does not parse, an unknown
//! discriminator, or a lookup that finds nothing leaves the state
//! untouched and owes nothing — that is stated, not just intended.

use vstd::prelude::*;
use crate::commands::Command;
use crate::commands::ConnectionCommand;
use crate::commands::GetUsersRequest;
use crate::commands::GetUsersResponse;
use crate::commands::SendMessageRequest;
use crate::commands::SendMessageResponse;
use crate::commands::SwitchRoomRequest;
use crate::commands::spec_parse_command_type;
use crate::commands::spec_parse_join;
use crate::commands::spec_parse_tagged;
use crate::commands::ser_message;
use crate::commands::ser_users;
use crate::json::str_eq;
use crate::registry::Member;
use crate::registry::Outbound;
use crate::registry::Registry;
use crate::registry::add_member_post;
use crate::registry::broadcast_out;
use crate::registry::conn_in_rooms;
use crate::registry::conns_distinct;
use crate::registry::remove_fails;
use crate::registry::remove_some_post;

verus! {

/// Everything the core loop owns: the pool of connections that have not
/// yet joined, and the room registry.
#[derive(Debug)]
pub struct StreamState {
    pub unassigned: Vec<u64>,
    pub registry: Registry,
}

// ---------------------------------------------------------------------------
// What each poll-cycle step does
// ---------------------------------------------------------------------------

/// The outcome of offering one unassigned connection's payload: a payload
/// that parses as a join moves the connection from the pool into its room
/// and owes the join notice to the room's prior members; anything else
/// changes nothing and owes nothing.
pub open spec fn unassigned_payload_post(
    pre: StreamState,
    post: StreamState,
    i: int,
    t: Seq<char>,
    out: Seq<Outbound>,
) -> bool {
    match spec_parse_join(t) {
        Some(nr) => post.unassigned@ == pre.unassigned@.remove(i) && add_member_post(
            pre.registry,
            post.registry,
            nr.1,
            pre.unassigned@[i],
            nr.0,
            out,
        ),
        None => post == pre && out.len() == 0,
    }
}

/// The single reply a users request earns: the requested room's snapshot,
/// written only to the requester, looked up by display name in the
/// requester's current room. Nothing is owed when the requested room is
/// absent or the requester cannot be found.
pub open spec fn get_users_out(
    reg: Registry,
    user: Seq<char>,
    cur_room: Seq<char>,
    req_room: Seq<char>,
    out: Seq<Outbound>,
) -> bool {
    if reg.has_room(req_room) {
        match reg.requester_conn(cur_room, user) {
            Some(c) => out.len() == 1 && out[0].conn == c && out[0].line@ == ser_users(
                "GetUsers"@,
                reg.users_of(req_room),
            ),
            None => out.len() == 0,
        }
    } else {
        out.len() == 0
    }
}

/// The outcome of a room switch: the first member named `user` leaves the
/// current room and joins the destination (created when absent), which
/// owes the join notice to the destination's prior members. When the
/// member is not found the state is unchanged — an idempotent no-op.
pub open spec fn switch_room_post(
    pre: StreamState,
    post: StreamState,
    user: Seq<char>,
    cur_room: Seq<char>,
    dest: Seq<char>,
    out: Seq<Outbound>,
) -> bool {
    if remove_fails(pre.registry, cur_room, user) {
        post == pre && out.len() == 0
    } else {
        &&& post.unassigned == pre.unassigned
        &&& exists|mid: Registry, m: Member|
            #[trigger] remove_some_post(pre.registry, mid, cur_room, user, m) && add_member_post(
                mid,
                post.registry,
                dest,
                m.conn,
                m.name@,
                out,
            )
    }
}

/// The outcome of offering one member's payload, dispatched on the
/// payload's discriminator exactly as the wire protocol reads it.
pub open spec fn member_payload_post(
    pre: StreamState,
    post: StreamState,
    user: Seq<char>,
    room: Seq<char>,
    t: Seq<char>,
    out: Seq<Outbound>,
) -> bool {
    match spec_parse_command_type(t) {
        None => post == pre && out.len() == 0,
        Some(ct) => if ct == "SendMessage"@ {
            match spec_parse_tagged(t, "message"@) {
                Some(cm) => post == pre && broadcast_out(
                    pre.registry,
                    room,
                    ser_message("SendMessage"@, user + ": "@ + cm.1),
                    out,
                ),
                None => post == pre && out.len() == 0,
            }
        } else if ct == "GetUsers"@ {
            match spec_parse_tagged(t, "room"@) {
                Some(cr) => post == pre && get_users_out(pre.registry, user, room, cr.1, out),
                None => post == pre && out.len() == 0,
            }
        } else if ct == "SwitchRoom"@ {
            match spec_parse_tagged(t, "room"@) {
                Some(cr) => switch_room_post(pre, post, user, room, cr.1, out),
                None => post == pre && out.len() == 0,
            }
        } else {
            post == pre && out.len() == 0
        },
    }
}

impl StreamState {
    /// The ownership rule of the data model: a connection identifier is
    /// held in exactly one place — once in the pool, or in one membership
    /// slot of one room, never both.
    pub open spec fn owns_each_conn_once(self) -> bool {
        &&& forall|a: int, b: int|
            0 <= a < b < self.unassigned@.len() ==> self.unassigned@[a] != self.unassigned@[b]
        &&& forall|a: int|
            0 <= a < self.unassigned@.len() ==> !conn_in_rooms(
                self.registry,
                #[trigger] self.unassigned@[a],
            )
        &&& conns_distinct(self.registry)
    }
}

// ---------------------------------------------------------------------------
// Laws
// ---------------------------------------------------------------------------

/// Law: a fresh connection entering the pool leaves every identifier
/// owned once.
pub proof fn lemma_pool_keeps_ownership(pre: StreamState, post: StreamState, conn: u64)
    requires
        pre.owns_each_conn_once(),
        !pre.unassigned@.contains(conn),
        !conn_in_rooms(pre.registry, conn),
        post.unassigned@ == pre.unassigned@.push(conn),
        post.registry == pre.registry,
    ensures
        post.owns_each_conn_once(),
{
    assert forall|a: int, b: int|
        0 <= a < b < post.unassigned@.len() implies post.unassigned@[a] != post.unassigned@[b] by {
        assert(post.unassigned@[a] == pre.unassigned@[a]);
        if b == pre.unassigned@.len() {
            if pre.unassigned@[a] == conn {
                assert(pre.unassigned@.contains(conn));
            }
        } else {
            assert(post.unassigned@[b] == pre.unassigned@[b]);
        }
    }
    assert forall|a: int| 0 <= a < post.unassigned@.len() implies !conn_in_rooms(
        post.registry,
        post.unassigned@[a],
    ) by {
        if a < pre.unassigned@.len() {
            assert(post.unassigned@[a] == pre.unassigned@[a]);
        } else {
            assert(post.unassigned@[a] == conn);
        }
    }
}

/// Law: a completed join hands the identifier from the pool to its room
/// and leaves every identifier owned once.
pub proof fn lemma_join_keeps_ownership(
    pre: StreamState,
    post: StreamState,
    i: int,
    t: Seq<char>,
    out: Seq<Outbound>,
)
    requires
        0 <= i < pre.unassigned@.len(),
        pre.owns_each_conn_once(),
        unassigned_payload_post(pre, post, i, t, out),
    ensures
        post.owns_each_conn_once(),
{
    match spec_parse_join(t) {
        None => {},
        Some(nr) => {
            let conn = pre.unassigned@[i];
            assert(!conn_in_rooms(pre.registry, conn));
            crate::registry::lemma_add_member_conns(
                pre.registry,
                post.registry,
                nr.1,
                conn,
                nr.0,
                out,
            );
            assert forall|a: int, b: int|
                0 <= a < b < post.unassigned@.len() implies post.unassigned@[a]
                != post.unassigned@[b] by {
                let a0 = if a < i {
                    a
                } else {
                    a + 1
                };
                let b0 = if b < i {
                    b
                } else {
                    b + 1
                };
                assert(post.unassigned@[a] == pre.unassigned@[a0]);
                assert(post.unassigned@[b] == pre.unassigned@[b0]);
            }
            assert forall|a: int| 0 <= a < post.unassigned@.len() implies !conn_in_rooms(
                post.registry,
                post.unassigned@[a],
            ) by {
                let a0 = if a < i {
                    a
                } else {
                    a + 1
                };
                assert(post.unassigned@[a] == pre.unassigned@[a0]);
                let x = pre.unassigned@[a0];
                assert(!conn_in_rooms(pre.registry, x));
                if a0 < i {
                    assert(pre.unassigned@[a0] != pre.unassigned@[i]);
                } else {
                    assert(pre.unassigned@[i] != pre.unassigned@[a0]);
                }
                assert(x != conn);
            }
        },
    }
}

/// Law: whatever a member's payload asks, every identifier stays owned
/// once — in particular a room switch only moves its one identifier.
pub proof fn lemma_member_payload_keeps_ownership(
    pre: StreamState,
    post: StreamState,
    user: Seq<char>,
    room: Seq<char>,
    t: Seq<char>,
    out: Seq<Outbound>,
)
    requires
        pre.owns_each_conn_once(),
        member_payload_post(pre, post, user, room, t, out),
    ensures
        post.owns_each_conn_once(),
{
    match spec_parse_command_type(t) {
        None => {},
        Some(ct) => {
            if ct == "SwitchRoom"@ {
                reveal_strlit("SendMessage");
                reveal_strlit("GetUsers");
                reveal_strlit("SwitchRoom");
                assert("SwitchRoom"@.len() != "SendMessage"@.len());
                assert("SwitchRoom"@.len() != "GetUsers"@.len());
                match spec_parse_tagged(t, "room"@) {
                    Some(cr) => {
                        if !remove_fails(pre.registry, room, user) {
                            let (mid, m) = choose|mid: Registry, m: Member|
                                #[trigger] remove_some_post(pre.registry, mid, room, user, m)
                                    && add_member_post(
                                    mid,
                                    post.registry,
                                    cr.1,
                                    m.conn,
                                    m.name@,
                                    out,
                                );
                            assert(remove_some_post(pre.registry, mid, room, user, m)
                                && add_member_post(mid, post.registry, cr.1, m.conn, m.name@, out));
                            crate::registry::lemma_remove_member_conns(
                                pre.registry,
                                mid,
                                room,
                                user,
                                m,
                            );
                            crate::registry::lemma_add_member_conns(
                                mid,
                                post.registry,
                                cr.1,
                                m.conn,
                                m.name@,
                                out,
                            );
                            let rp = pre.registry.rooms@;
                            let k = crate::registry::room_index(rp, room);
                            crate::registry::lemma_room_index_from(rp, room, 0);
                            let ms = rp[k].members@;
                            let mi = crate::registry::member_index(ms, user);
                            crate::registry::lemma_member_index_from(ms, user, 0);
                            assert(rp[k].members@[mi].conn == m.conn);
                            assert(conn_in_rooms(pre.registry, m.conn));
                            assert forall|a: int|
                                0 <= a < post.unassigned@.len() implies !conn_in_rooms(
                                post.registry,
                                post.unassigned@[a],
                            ) by {
                                assert(post.unassigned@[a] == pre.unassigned@[a]);
                                let x = pre.unassigned@[a];
                                assert(!conn_in_rooms(pre.registry, x));
                                assert(x != m.conn);
                                if conn_in_rooms(post.registry, x) {
                                    assert(conn_in_rooms(mid, x));
                                    assert(conn_in_rooms(pre.registry, x));
                                }
                            }
                        }
                    },
                    None => {},
                }
            }
        },
    }
}

/// Law: a room switch moves the member. When the current room holds
/// exactly one member of the name and the destination is a different
/// room, the name is gone from the current room's snapshot afterwards
/// and present in the destination's. (When the member is not found,
/// `switch_room_post` itself states that the state is unchanged.)
pub proof fn lemma_switch_room_moves_member(
    pre: StreamState,
    post: StreamState,
    user: Seq<char>,
    r1: Seq<char>,
    r2: Seq<char>,
    out: Seq<Outbound>,
)
    requires
        pre.registry.wf(),
        switch_room_post(pre, post, user, r1, r2, out),
        !remove_fails(pre.registry, r1, user),
        r1 != r2,
        ({
            let rooms = pre.registry.rooms@;
            let ms = rooms[crate::registry::room_index(rooms, r1)].members@;
            forall|j: int|
                0 <= j < ms.len() && ms[j].name@ == user ==> j == crate::registry::member_index(
                    ms,
                    user,
                )
        }),
    ensures
        !post.registry.users_of(r1).contains(user),
        post.registry.users_of(r2).contains(user),
{
    let rooms0 = pre.registry.rooms@;
    let k1 = crate::registry::room_index(rooms0, r1);
    crate::registry::lemma_room_index_from(rooms0, r1, 0);
    let ms = rooms0[k1].members@;
    let mi = crate::registry::member_index(ms, user);
    crate::registry::lemma_member_index_from(ms, user, 0);
    let (mid, m) = choose|mid: Registry, m: Member|
        #[trigger] remove_some_post(pre.registry, mid, r1, user, m) && add_member_post(
            mid,
            post.registry,
            r2,
            m.conn,
            m.name@,
            out,
        );
    assert(remove_some_post(pre.registry, mid, r1, user, m) && add_member_post(
        mid,
        post.registry,
        r2,
        m.conn,
        m.name@,
        out,
    ));
    let rm = mid.rooms@;
    let rp = post.registry.rooms@;
    assert(m == ms[mi]);
    assert(m.name@ == user);
    assert(rm[k1].members@ == ms.remove(mi));
    // The first occurrence of r1 among the rooms is still k1 in `mid`.
    assert(forall|j: int| 0 <= j < k1 ==> rm[j].name@ != r1);
    crate::registry::lemma_room_index_is(rm, r1, k1);
    let k2m = crate::registry::room_index(rm, r2);
    crate::registry::lemma_room_index_from(rm, r2, 0);
    // The removed-from room's remaining members avoid `user`: the removed
    // occurrence was the only one.
    assert(forall|j: int| 0 <= j < ms.remove(mi).len() ==> ms.remove(mi)[j].name@ != user) by {
        assert forall|j: int| 0 <= j < ms.remove(mi).len() implies ms.remove(mi)[j].name@
            != user by {
            if j < mi {
                assert(ms.remove(mi)[j] == ms[j]);
            } else {
                assert(ms.remove(mi)[j] == ms[j + 1]);
            }
        }
    }
    if k2m < rm.len() {
        // The destination existed: the mover was appended to it.
        assert(rm[k2m].name@ == r2);
        assert(k2m != k1);
        assert(rp[k1] == rm[k1]);
        assert(forall|j: int| 0 <= j < k1 ==> rp[j].name@ != r1) by {
            assert forall|j: int| 0 <= j < k1 implies rp[j].name@ != r1 by {
                if j == k2m {
                    assert(rp[j].name@ == rm[j].name@);
                } else {
                    assert(rp[j] == rm[j]);
                }
            }
        }
        crate::registry::lemma_room_index_is(rp, r1, k1);
        assert(rp[k2m].name@ == rm[k2m].name@);
        assert(forall|j: int| 0 <= j < k2m ==> rp[j].name@ != r2) by {
            assert forall|j: int| 0 <= j < k2m implies rp[j].name@ != r2 by {
                assert(rp[j] == rm[j]);
            }
        }
        crate::registry::lemma_room_index_is(rp, r2, k2m);
        let msd = rp[k2m].members@;
        assert(msd.last().name@ == user);
        let users2 = post.registry.users_of(r2);
        assert(users2[msd.len() - 1] == user);
        assert(users2.contains(user));
    } else {
        // The destination was created, at the end, with the mover alone.
        assert(rp.len() == rm.len() + 1);
        assert(rp[k1] == rm[k1]);
        assert(forall|j: int| 0 <= j < k1 ==> rp[j].name@ != r1) by {
            assert forall|j: int| 0 <= j < k1 implies rp[j].name@ != r1 by {
                assert(rp[j] == rm[j]);
            }
        }
        crate::registry::lemma_room_index_is(rp, r1, k1);
        assert(rp.last().name@ == r2);
        assert(forall|j: int| 0 <= j < rm.len() ==> rp[j].name@ != r2) by {
            assert forall|j: int| 0 <= j < rm.len() implies rp[j].name@ != r2 by {
                assert(rp[j] == rm[j]);
            }
        }
        crate::registry::lemma_room_index_is(rp, r2, rm.len() as int);
        let msd = rp[rm.len() as int].members@;
        assert(msd[0].name@ == user);
        let users2 = post.registry.users_of(r2);
        assert(users2[0] == user);
        assert(users2.contains(user));
    }
    // In both cases room r1 kept its place and holds the remaining members.
    let ms1 = rp[k1].members@;
    assert(ms1 == ms.remove(mi));
    let users1 = post.registry.users_of(r1);
    assert(users1.len() == ms1.len());
    assert(forall|j: int| 0 <= j < users1.len() ==> users1[j] != user) by {
        assert forall|j: int| 0 <= j < users1.len() implies users1[j] != user by {
            assert(users1[j] == ms1[j].name@);
        }
    }
    assert(!users1.contains(user));
}

// ---------------------------------------------------------------------------
// The handlers
// ---------------------------------------------------------------------------

impl StreamState {
    /// The state the server starts with: empty pool, no rooms.
    pub fn new() -> (r: StreamState)
        ensures
            r.unassigned@.len() == 0,
            r.registry.rooms@.len() == 0,
            r.registry.wf(),
    {
        StreamState { unassigned: Vec::new(), registry: Registry::new() }
    }

    /// A freshly accepted connection enters the pool of unassigned
    /// connections.
    pub fn received_unattached_stream(&mut self, conn: u64)
        ensures
            final(self).unassigned@ == old(self).unassigned@.push(conn),
            final(self).registry == old(self).registry,
    {
        self.unassigned.push(conn);
    }

    /// Offer the payload read from the unassigned connection at pool
    /// index `i`.
    pub fn handle_unassigned_payload(&mut self, i: usize, payload: &str) -> (out: Vec<Outbound>)
        requires
            i < old(self).unassigned@.len(),
            old(self).registry.wf(),
        ensures
            final(self).registry.wf(),
            unassigned_payload_post(*old(self), *final(self), i as int, payload@, out@),
    {
        match ConnectionCommand::parse(payload) {
            Some(cc) => {
                let conn = self.unassigned.remove(i);
                self.registry.add_member(cc.room.as_str(), conn, cc.name)
            },
            None => Vec::new(),
        }
    }

    /// Offer the payload read from the member named `user_name` of room
    /// `room_id`.
    pub fn handle_member_payload(&mut self, user_name: &str, room_id: &str, payload: &str) -> (out:
        Vec<Outbound>)
        requires
            old(self).registry.wf(),
        ensures
            final(self).registry.wf(),
            member_payload_post(
                *old(self),
                *final(self),
                user_name@,
                room_id@,
                payload@,
                out@,
            ),
    {
        match Command::parse(payload) {
            Some(c) => if str_eq(c.command_type.as_str(), "SendMessage") {
                self.parse_send_message(user_name, payload, room_id)
            } else if str_eq(c.command_type.as_str(), "GetUsers") {
                self.parse_get_users(user_name, payload, room_id)
            } else if str_eq(c.command_type.as_str(), "SwitchRoom") {
                self.parse_switch_room(user_name, payload, room_id)
            } else {
                Vec::new()
            },
            None => Vec::new(),
        }
    }

    /// Fan a message out to the sender's room, rewritten as
    /// `"{name}: {message}"`.
    fn parse_send_message(&mut self, user_name: &str, payload: &str, room_id: &str) -> (out: Vec<
        Outbound,
    >)
        ensures
            *final(self) == *old(self),
            match spec_parse_tagged(payload@, "message"@) {
                Some(cm) => broadcast_out(
                    old(self).registry,
                    room_id@,
                    ser_message("SendMessage"@, user_name@ + ": "@ + cm.1),
                    out@,
                ),
                None => out@.len() == 0,
            },
    {
        match SendMessageRequest::parse(payload) {
            Some(req) => {
                let mut msg = String::from_str(user_name);
                msg.append(": ");
                msg.append(req.message.as_str());
                proof {
                    assert(msg@ =~= user_name@ + ": "@ + req.message@);
                }
                let resp = SendMessageResponse {
                    command_type: String::from_str("SendMessage"),
                    message: msg,
                };
                let line = resp.to_json();
                self.registry.broadcast(room_id, line.as_str())
            },
            None => Vec::new(),
        }
    }

    /// Answer a users request: the requested room's snapshot, to the
    /// requester alone.
    fn parse_get_users(&mut self, user_name: &str, payload: &str, users_room_id: &str) -> (out: Vec<
        Outbound,
    >)
        ensures
            *final(self) == *old(self),
            match spec_parse_tagged(payload@, "room"@) {
                Some(cr) => get_users_out(
                    old(self).registry,
                    user_name@,
                    users_room_id@,
                    cr.1,
                    out@,
                ),
                None => out@.len() == 0,
            },
    {
        match GetUsersRequest::parse(payload) {
            Some(req) => match self.registry.snapshot_users(req.room.as_str()) {
                Some(users) => match self.registry.find_member_conn(users_room_id, user_name) {
                    Some(conn) => {
                        let resp = GetUsersResponse {
                            command_type: String::from_str("GetUsers"),
                            users,
                        };
                        let line = resp.to_json();
                        let mut out: Vec<Outbound> = Vec::new();
                        out.push(Outbound { conn, line });
                        out
                    },
                    None => Vec::new(),
                },
                None => Vec::new(),
            },
            None => Vec::new(),
        }
    }

    /// Move the sender to the requested room; a member no longer present
    /// makes the switch a no-op.
    fn parse_switch_room(&mut self, user_name: &str, payload: &str, room_id: &str) -> (out: Vec<
        Outbound,
    >)
        requires
            old(self).registry.wf(),
        ensures
            final(self).registry.wf(),
            match spec_parse_tagged(payload@, "room"@) {
                Some(cr) => switch_room_post(
                    *old(self),
                    *final(self),
                    user_name@,
                    room_id@,
                    cr.1,
                    out@,
                ),
                None => *final(self) == *old(self) && out@.len() == 0,
            },
    {
        match SwitchRoomRequest::parse(payload) {
            Some(req) => match self.registry.remove_member(room_id, user_name) {
                Some(m) => {
                    let ghost mid = self.registry;
                    let ghost gm = m;
                    let conn = m.conn;
                    let notices = self.registry.add_member(req.room.as_str(), conn, m.name);
                    proof {
                        assert(remove_some_post(
                            old(self).registry,
                            mid,
                            room_id@,
                            user_name@,
                            gm,
                        ));
                        assert(add_member_post(
                            mid,
                            self.registry,
                            req.room@,
                            gm.conn,
                            gm.name@,
                            notices@,
                        ));
                    }
                    notices
                },
                None => Vec::new(),
            },
            None => Vec::new(),
        }
    }
}

} // verus!
