//! The room registry: the central authority for membership and fan-out.
//!
//! A room owns its members in insertion order; that order is the display
//! order of membership snapshots and the delivery order of broadcasts.
//! Rooms are created on first use and never deleted. A member is a stable
//! connection identifier (the transport layer's key for a connection,
//! standing in for the peer address) together with the display name chosen
//! at join time; names need not be unique, identifiers are the caller's
//! business.
//!
//! Every operation's outcome is pinned down by a public predicate
//! (`add_member_post`, `remove_some_post`, ...) over the registry before
//! and after, so the poll-loop handlers in `state` can restate exactly
//! what happened.

use vstd::prelude::*;
use crate::json::str_eq;

verus! {

/// One member of a room: connection identifier plus display name.
#[derive(Debug)]
pub struct Member {
    pub conn: u64,
    pub name: String,
}

/// A named room and its members, in insertion order.
#[derive(Debug)]
pub struct Room {
    pub name: String,
    pub members: Vec<Member>,
}

/// One line owed to one connection, newline terminator not yet appended.
#[derive(Debug)]
pub struct Outbound {
    pub conn: u64,
    pub line: String,
}

/// The map from room name to room, as a vector in creation order.
#[derive(Debug)]
pub struct Registry {
    pub rooms: Vec<Room>,
}

// ---------------------------------------------------------------------------
// Spec-level lookups
// ---------------------------------------------------------------------------

/// First index at or after `i` of the room with this name; `rooms.len()`
/// if there is none.
pub open spec fn room_index_from(rooms: Seq<Room>, name: Seq<char>, i: int) -> int
    decreases rooms.len() - i,
{
    if i < 0 || i >= rooms.len() {
        rooms.len() as int
    } else if rooms[i].name@ == name {
        i
    } else {
        room_index_from(rooms, name, i + 1)
    }
}

/// First index of the room with this name; `rooms.len()` if absent.
pub open spec fn room_index(rooms: Seq<Room>, name: Seq<char>) -> int {
    room_index_from(rooms, name, 0)
}

/// First index at or after `i` of the member with this display name;
/// `ms.len()` if there is none.
pub open spec fn member_index_from(ms: Seq<Member>, name: Seq<char>, i: int) -> int
    decreases ms.len() - i,
{
    if i < 0 || i >= ms.len() {
        ms.len() as int
    } else if ms[i].name@ == name {
        i
    } else {
        member_index_from(ms, name, i + 1)
    }
}

/// First index of the member with this display name; `ms.len()` if absent.
pub open spec fn member_index(ms: Seq<Member>, name: Seq<char>) -> int {
    member_index_from(ms, name, 0)
}

/// What `room_index_from` finds: the first match, after no match.
pub proof fn lemma_room_index_from(rooms: Seq<Room>, name: Seq<char>, i: int)
    requires
        0 <= i <= rooms.len(),
    ensures
        i <= room_index_from(rooms, name, i) <= rooms.len(),
        room_index_from(rooms, name, i) < rooms.len() ==> rooms[room_index_from(
            rooms,
            name,
            i,
        )].name@ == name,
        forall|j: int|
            i <= j < room_index_from(rooms, name, i) ==> rooms[j].name@ != name,
    decreases rooms.len() - i,
{
    if i < rooms.len() && rooms[i].name@ != name {
        lemma_room_index_from(rooms, name, i + 1);
    }
}

/// What `member_index_from` finds: the first match, after no match.
pub proof fn lemma_member_index_from(ms: Seq<Member>, name: Seq<char>, i: int)
    requires
        0 <= i <= ms.len(),
    ensures
        i <= member_index_from(ms, name, i) <= ms.len(),
        member_index_from(ms, name, i) < ms.len() ==> ms[member_index_from(
            ms,
            name,
            i,
        )].name@ == name,
        forall|j: int|
            i <= j < member_index_from(ms, name, i) ==> ms[j].name@ != name,
    decreases ms.len() - i,
{
    if i < ms.len() && ms[i].name@ != name {
        lemma_member_index_from(ms, name, i + 1);
    }
}

/// A match at `k` with no earlier match pins the first index down.
pub proof fn lemma_room_index_is(rooms: Seq<Room>, name: Seq<char>, k: int)
    requires
        0 <= k < rooms.len(),
        rooms[k].name@ == name,
        forall|j: int| 0 <= j < k ==> rooms[j].name@ != name,
    ensures
        room_index(rooms, name) == k,
{
    lemma_room_index_from(rooms, name, 0);
}

/// No match anywhere sends the first index past the end.
pub proof fn lemma_room_index_absent(rooms: Seq<Room>, name: Seq<char>)
    requires
        forall|j: int| 0 <= j < rooms.len() ==> rooms[j].name@ != name,
    ensures
        room_index(rooms, name) == rooms.len(),
{
    lemma_room_index_from(rooms, name, 0);
}

// ---------------------------------------------------------------------------
// The registry's shape
// ---------------------------------------------------------------------------

impl Registry {
    /// Room names are distinct: the vector really is a map.
    pub open spec fn wf(self) -> bool {
        forall|i: int, j: int|
            0 <= i < j < self.rooms@.len() ==> self.rooms@[i].name@ != self.rooms@[j].name@
    }

    /// There is a room of this name.
    pub open spec fn has_room(self, room: Seq<char>) -> bool {
        room_index(self.rooms@, room) < self.rooms@.len()
    }

    /// The member names of this room, in membership order; empty when the
    /// room is absent.
    pub open spec fn users_of(self, room: Seq<char>) -> Seq<Seq<char>> {
        if self.has_room(room) {
            self.rooms@[room_index(self.rooms@, room)].members@.map_values(|m: Member| m.name@)
        } else {
            Seq::empty()
        }
    }

    /// The connection the registry would answer, looking the requester up
    /// by display name in its current room: the first member of that name.
    pub open spec fn requester_conn(self, room: Seq<char>, name: Seq<char>) -> Option<u64> {
        if self.has_room(room) {
            let ms = self.rooms@[room_index(self.rooms@, room)].members@;
            if member_index(ms, name) < ms.len() {
                Some(ms[member_index(ms, name)].conn)
            } else {
                None
            }
        } else {
            None
        }
    }
}

/// The system notice appended to a room when someone joins it.
pub open spec fn join_notice(name: Seq<char>) -> Seq<char> {
    name + " joined the room"@
}

// ---------------------------------------------------------------------------
// What each operation does
// ---------------------------------------------------------------------------

/// `post` is `pre` with `(conn, name)` appended to the named room, the
/// room created first when absent, and `notices` owes the join notice to
/// exactly the room's prior members, in membership order.
pub open spec fn add_member_post(
    pre: Registry,
    post: Registry,
    room: Seq<char>,
    conn: u64,
    name: Seq<char>,
    notices: Seq<Outbound>,
) -> bool {
    let k = room_index(pre.rooms@, room);
    if k < pre.rooms@.len() {
        &&& post.rooms@.len() == pre.rooms@.len()
        &&& forall|j: int|
            0 <= j < pre.rooms@.len() && j != k ==> post.rooms@[j] == pre.rooms@[j]
        &&& post.rooms@[k].name@ == pre.rooms@[k].name@
        &&& post.rooms@[k].members@.len() == pre.rooms@[k].members@.len() + 1
        &&& forall|j: int|
            0 <= j < pre.rooms@[k].members@.len() ==> post.rooms@[k].members@[j]
                == pre.rooms@[k].members@[j]
        &&& post.rooms@[k].members@.last().conn == conn
        &&& post.rooms@[k].members@.last().name@ == name
        &&& notices.len() == pre.rooms@[k].members@.len()
        &&& forall|j: int|
            0 <= j < notices.len() ==> notices[j].conn == pre.rooms@[k].members@[j].conn
                && notices[j].line@ == join_notice(name)
    } else {
        &&& post.rooms@.len() == pre.rooms@.len() + 1
        &&& forall|j: int| 0 <= j < pre.rooms@.len() ==> post.rooms@[j] == pre.rooms@[j]
        &&& post.rooms@.last().name@ == room
        &&& post.rooms@.last().members@.len() == 1
        &&& post.rooms@.last().members@[0].conn == conn
        &&& post.rooms@.last().members@[0].name@ == name
        &&& notices.len() == 0
    }
}

/// `post` is `pre` with the first member named `name` removed from the
/// named room, and `m` is that member.
pub open spec fn remove_some_post(
    pre: Registry,
    post: Registry,
    room: Seq<char>,
    name: Seq<char>,
    m: Member,
) -> bool {
    let k = room_index(pre.rooms@, room);
    &&& k < pre.rooms@.len()
    &&& {
        let ms = pre.rooms@[k].members@;
        let mi = member_index(ms, name);
        &&& mi < ms.len()
        &&& m == ms[mi]
        &&& post.rooms@.len() == pre.rooms@.len()
        &&& forall|j: int|
            0 <= j < pre.rooms@.len() && j != k ==> post.rooms@[j] == pre.rooms@[j]
        &&& post.rooms@[k].name@ == pre.rooms@[k].name@
        &&& post.rooms@[k].members@ == ms.remove(mi)
    }
}

/// Removal finds nothing: the room is absent, or holds no member of that
/// name.
pub open spec fn remove_fails(pre: Registry, room: Seq<char>, name: Seq<char>) -> bool {
    let k = room_index(pre.rooms@, room);
    k >= pre.rooms@.len() || member_index(pre.rooms@[k].members@, name) >= pre.rooms@[
        k
    ].members@.len()
}

/// `out` owes `line` to every member of the named room, in membership
/// order, and to nobody else; nothing when the room is absent.
pub open spec fn broadcast_out(
    reg: Registry,
    room: Seq<char>,
    line: Seq<char>,
    out: Seq<Outbound>,
) -> bool {
    let k = room_index(reg.rooms@, room);
    if k < reg.rooms@.len() {
        &&& out.len() == reg.rooms@[k].members@.len()
        &&& forall|j: int|
            0 <= j < out.len() ==> out[j].conn == reg.rooms@[k].members@[j].conn && out[j].line@
                == line
    } else {
        out.len() == 0
    }
}

// ---------------------------------------------------------------------------
// Connection ownership
// ---------------------------------------------------------------------------

/// The connection identifier is held by some room.
pub open spec fn conn_in_rooms(reg: Registry, conn: u64) -> bool {
    exists|i: int, j: int|
        #![trigger reg.rooms@[i].members@[j]]
        0 <= i < reg.rooms@.len() && 0 <= j < reg.rooms@[i].members@.len() && reg.rooms@[
            i
        ].members@[j].conn == conn
}

/// No two membership slots, in one room or across rooms, hold the same
/// connection identifier.
pub open spec fn conns_distinct(reg: Registry) -> bool {
    forall|i1: int, j1: int, i2: int, j2: int|
        #![trigger reg.rooms@[i1].members@[j1], reg.rooms@[i2].members@[j2]]
        0 <= i1 < reg.rooms@.len() && 0 <= j1 < reg.rooms@[i1].members@.len() && 0 <= i2
            < reg.rooms@.len() && 0 <= j2 < reg.rooms@[i2].members@.len() && !(i1 == i2 && j1
            == j2) ==> reg.rooms@[i1].members@[j1].conn != reg.rooms@[i2].members@[j2].conn
}

/// Adding a connection no room holds keeps the slots distinct, and the
/// rooms hold exactly the old identifiers plus the new one.
pub proof fn lemma_add_member_conns(
    pre: Registry,
    post: Registry,
    room: Seq<char>,
    conn: u64,
    name: Seq<char>,
    notices: Seq<Outbound>,
)
    requires
        add_member_post(pre, post, room, conn, name, notices),
        conns_distinct(pre),
        !conn_in_rooms(pre, conn),
    ensures
        conns_distinct(post),
        forall|x: u64| conn_in_rooms(post, x) <==> (conn_in_rooms(pre, x) || x == conn),
{
    let k = room_index(pre.rooms@, room);
    let rp = pre.rooms@;
    let rq = post.rooms@;
    lemma_room_index_from(rp, room, 0);
    let ki = if k < rp.len() {
        k
    } else {
        rp.len() as int
    };
    let nj = if k < rp.len() {
        rp[k].members@.len() as int
    } else {
        0
    };
    // Every slot of `post` is the matching slot of `pre`, except the one
    // new slot, which holds `conn`.
    assert forall|i: int, j: int|
        #![trigger rq[i].members@[j]]
        0 <= i < rq.len() && 0 <= j < rq[i].members@.len() implies ((i == ki && j == nj
        && rq[i].members@[j].conn == conn) || (0 <= i < rp.len() && 0 <= j < rp[
        i
    ].members@.len() && rq[i].members@[j] == rp[i].members@[j])) by {
        if k < rp.len() {
            if i == k {
                if j < nj {
                    assert(rq[i].members@[j] == rp[i].members@[j]);
                } else {
                    assert(rq[i].members@[j] == rq[i].members@.last());
                }
            } else {
                assert(rq[i] == rp[i]);
            }
        } else {
            if i < rp.len() {
                assert(rq[i] == rp[i]);
            } else {
                assert(rq[i].members@[j] == rq.last().members@[0]);
            }
        }
    }
    assert forall|i1: int, j1: int, i2: int, j2: int|
        0 <= i1 < rq.len() && 0 <= j1 < rq[i1].members@.len() && 0 <= i2 < rq.len() && 0 <= j2
            < rq[i2].members@.len() && !(i1 == i2 && j1 == j2) implies rq[i1].members@[j1].conn
        != rq[i2].members@[j2].conn by {
        if i1 == ki && j1 == nj {
            assert(rq[i2].members@[j2] == rp[i2].members@[j2]);
            if rq[i2].members@[j2].conn == conn {
                assert(conn_in_rooms(pre, conn));
            }
        } else if i2 == ki && j2 == nj {
            assert(rq[i1].members@[j1] == rp[i1].members@[j1]);
            if rq[i1].members@[j1].conn == conn {
                assert(conn_in_rooms(pre, conn));
            }
        } else {
            assert(rq[i1].members@[j1] == rp[i1].members@[j1]);
            assert(rq[i2].members@[j2] == rp[i2].members@[j2]);
        }
    }
    assert forall|x: u64| conn_in_rooms(post, x) <==> (conn_in_rooms(pre, x) || x == conn) by {
        if conn_in_rooms(post, x) {
            let (i, j) = choose|i: int, j: int|
                #![trigger rq[i].members@[j]]
                0 <= i < rq.len() && 0 <= j < rq[i].members@.len() && rq[i].members@[j].conn == x;
            if i == ki && j == nj {
                assert(x == conn);
            } else {
                assert(rq[i].members@[j] == rp[i].members@[j]);
                assert(conn_in_rooms(pre, x));
            }
        }
        if conn_in_rooms(pre, x) {
            let (i, j) = choose|i: int, j: int|
                #![trigger rp[i].members@[j]]
                0 <= i < rp.len() && 0 <= j < rp[i].members@.len() && rp[i].members@[j].conn == x;
            assert(rq[i].members@[j] == rp[i].members@[j]);
            assert(conn_in_rooms(post, x));
        }
        if x == conn {
            assert(0 <= ki < rq.len());
            if k < rp.len() {
                assert(rq[ki].members@[nj] == rq[ki].members@.last());
            } else {
                assert(rq[ki].members@[nj] == rq.last().members@[0]);
            }
            assert(rq[ki].members@[nj].conn == conn);
            assert(conn_in_rooms(post, x));
        }
    }
}

/// Removing a member keeps the slots distinct; the rooms hold no
/// identifier they did not hold, and no longer hold the removed one.
pub proof fn lemma_remove_member_conns(
    pre: Registry,
    post: Registry,
    room: Seq<char>,
    name: Seq<char>,
    m: Member,
)
    requires
        remove_some_post(pre, post, room, name, m),
        conns_distinct(pre),
    ensures
        conns_distinct(post),
        forall|x: u64| conn_in_rooms(post, x) ==> conn_in_rooms(pre, x),
        !conn_in_rooms(post, m.conn),
{
    let k = room_index(pre.rooms@, room);
    let rp = pre.rooms@;
    let rq = post.rooms@;
    lemma_room_index_from(rp, room, 0);
    let ms = rp[k].members@;
    let mi = member_index(ms, name);
    lemma_member_index_from(ms, name, 0);
    assert(0 <= k < rp.len());
    assert(0 <= mi < ms.len());
    assert(rq.len() == rp.len());
    assert(rq[k].members@ == ms.remove(mi));
    assert(rq[k].members@.len() == ms.len() - 1);
    // Every slot of `post` is a slot of `pre`, and never the removed one.
    assert forall|i: int, j: int|
        #![trigger rq[i].members@[j]]
        0 <= i < rq.len() && 0 <= j < rq[i].members@.len() implies (exists|j0: int|
            #![trigger rp[i].members@[j0]]
            0 <= j0 < rp[i].members@.len() && rq[i].members@[j] == rp[i].members@[j0] && !(i == k
                && j0 == mi)) by {
        if i == k {
            if j < mi {
                assert(ms.remove(mi)[j] == ms[j]);
                assert(rq[i].members@[j] == rp[i].members@[j]);
                assert(!(i == k && j == mi));
            } else {
                assert(ms.remove(mi)[j] == ms[j + 1]);
                assert(rq[i].members@[j] == rp[i].members@[j + 1]);
            }
        } else {
            assert(rq[i] == rp[i]);
            assert(rq[i].members@[j] == rp[i].members@[j]);
        }
    }
    assert forall|i1: int, j1: int, i2: int, j2: int|
        0 <= i1 < rq.len() && 0 <= j1 < rq[i1].members@.len() && 0 <= i2 < rq.len() && 0 <= j2
            < rq[i2].members@.len() && !(i1 == i2 && j1 == j2) implies rq[i1].members@[j1].conn
        != rq[i2].members@[j2].conn by {
        let jm1 = if i1 == k && j1 >= mi {
            j1 + 1
        } else {
            j1
        };
        let jm2 = if i2 == k && j2 >= mi {
            j2 + 1
        } else {
            j2
        };
        assert(rq[i1].members@[j1] == rp[i1].members@[jm1]);
        assert(rq[i2].members@[j2] == rp[i2].members@[jm2]);
        assert(!(i1 == i2 && jm1 == jm2));
    }
    assert forall|x: u64| conn_in_rooms(post, x) implies conn_in_rooms(pre, x) by {
        let (i, j) = choose|i: int, j: int|
            #![trigger rq[i].members@[j]]
            0 <= i < rq.len() && 0 <= j < rq[i].members@.len() && rq[i].members@[j].conn == x;
        let jm = if i == k && j >= mi {
            j + 1
        } else {
            j
        };
        assert(rp[i].members@[jm].conn == x);
    }
    assert(!conn_in_rooms(post, m.conn)) by {
        if conn_in_rooms(post, m.conn) {
            let (i, j) = choose|i: int, j: int|
                #![trigger rq[i].members@[j]]
                0 <= i < rq.len() && 0 <= j < rq[i].members@.len() && rq[i].members@[j].conn
                    == m.conn;
            let jm = if i == k && j >= mi {
                j + 1
            } else {
                j
            };
            assert(rp[i].members@[jm] == rq[i].members@[j]);
            assert(rp[k].members@[mi].conn == m.conn);
            assert(!(i == k && jm == mi));
            assert(rp[i].members@[jm].conn != rp[k].members@[mi].conn);
        }
    }
}

/// Law: after a join the name stands in the room's snapshot, the
/// snapshot grew by one, and the join notice went to exactly the room's
/// prior members — not to the joiner.
pub proof fn lemma_add_member_present(
    pre: Registry,
    post: Registry,
    room: Seq<char>,
    conn: u64,
    name: Seq<char>,
    notices: Seq<Outbound>,
)
    requires
        pre.wf(),
        add_member_post(pre, post, room, conn, name, notices),
    ensures
        post.users_of(room).contains(name),
        post.users_of(room).len() == pre.users_of(room).len() + 1,
        notices.len() == pre.users_of(room).len(),
        forall|j: int| 0 <= j < notices.len() ==> notices[j].line@ == join_notice(name),
{
    let k = room_index(pre.rooms@, room);
    lemma_room_index_from(pre.rooms@, room, 0);
    if k < pre.rooms@.len() {
        assert(forall|j: int| 0 <= j < k ==> post.rooms@[j].name@ != room) by {
            assert forall|j: int| 0 <= j < k implies post.rooms@[j].name@ != room by {
                assert(post.rooms@[j] == pre.rooms@[j]);
            }
        }
        lemma_room_index_is(post.rooms@, room, k);
        let msp = post.rooms@[k].members@;
        let users = post.users_of(room);
        assert(users[msp.len() - 1] == msp.last().name@);
        assert(users.contains(name));
    } else {
        assert(forall|j: int| 0 <= j < pre.rooms@.len() ==> post.rooms@[j].name@ != room) by {
            assert forall|j: int| 0 <= j < pre.rooms@.len() implies post.rooms@[j].name@
                != room by {
                assert(post.rooms@[j] == pre.rooms@[j]);
            }
        }
        lemma_room_index_is(post.rooms@, room, pre.rooms@.len() as int);
        let users = post.users_of(room);
        assert(users[0] == name);
        assert(users.contains(name));
    }
}

// ---------------------------------------------------------------------------
// The operations
// ---------------------------------------------------------------------------

impl Registry {
    /// The registry the server starts with: no rooms.
    pub fn new() -> (r: Registry)
        ensures
            r.rooms@.len() == 0,
            r.wf(),
    {
        Registry { rooms: Vec::new() }
    }

    fn find_room_from(&self, room: &str, i: usize) -> (r: usize)
        requires
            i <= self.rooms@.len(),
        ensures
            r as int == room_index_from(self.rooms@, room@, i as int),
        decreases self.rooms@.len() - i,
    {
        if i >= self.rooms.len() {
            self.rooms.len()
        } else if str_eq(self.rooms[i].name.as_str(), room) {
            i
        } else {
            self.find_room_from(room, i + 1)
        }
    }

    /// Insert the member into the named room, creating the room when
    /// absent, and return the join notice owed to the room's prior
    /// members.
    pub fn add_member(&mut self, room: &str, conn: u64, name: String) -> (notices: Vec<Outbound>)
        requires
            old(self).wf(),
        ensures
            final(self).wf(),
            add_member_post(*old(self), *final(self), room@, conn, name@, notices@),
    {
        let k = self.find_room_from(room, 0);
        proof {
            lemma_room_index_from(self.rooms@, room@, 0);
        }
        if k < self.rooms.len() {
            let mut line = name.clone();
            line.append(" joined the room");
            proof {
                assert(line@ == join_notice(name@));
            }
            let mut notices: Vec<Outbound> = Vec::new();
            let n = self.rooms[k].members.len();
            let mut j: usize = 0;
            while j < n
                invariant
                    k < self.rooms@.len(),
                    n == self.rooms@[k as int].members@.len(),
                    j <= n,
                    line@ == join_notice(name@),
                    notices@.len() == j,
                    forall|l: int|
                        0 <= l < j ==> notices@[l].conn == self.rooms@[k as int].members@[l].conn
                            && notices@[l].line@ == join_notice(name@),
                decreases n - j,
            {
                let c = self.rooms[k].members[j].conn;
                notices.push(Outbound { conn: c, line: line.clone() });
                j = j + 1;
            }
            self.rooms[k].members.push(Member { conn, name });
            notices
        } else {
            let mut members: Vec<Member> = Vec::new();
            members.push(Member { conn, name });
            self.rooms.push(Room { name: String::from_str(room), members });
            Vec::new()
        }
    }

    /// Remove and return the first member of this display name from the
    /// named room; the registry is untouched when room or member is
    /// absent.
    pub fn remove_member(&mut self, room: &str, name: &str) -> (removed: Option<Member>)
        requires
            old(self).wf(),
        ensures
            final(self).wf(),
            match removed {
                Some(m) => remove_some_post(*old(self), *final(self), room@, name@, m),
                None => remove_fails(*old(self), room@, name@) && *final(self) == *old(self),
            },
    {
        let k = self.find_room_from(room, 0);
        if k < self.rooms.len() {
            let mi = find_member_from(&self.rooms[k].members, name, 0);
            if mi < self.rooms[k].members.len() {
                let m = self.rooms[k].members.remove(mi);
                Some(m)
            } else {
                None
            }
        } else {
            None
        }
    }

    /// The line owed to every member of the named room, in membership
    /// order; nothing when the room is absent.
    pub fn broadcast(&self, room: &str, line: &str) -> (out: Vec<Outbound>)
        ensures
            broadcast_out(*self, room@, line@, out@),
    {
        let k = self.find_room_from(room, 0);
        let mut out: Vec<Outbound> = Vec::new();
        if k < self.rooms.len() {
            let n = self.rooms[k].members.len();
            let mut j: usize = 0;
            while j < n
                invariant
                    k < self.rooms@.len(),
                    n == self.rooms@[k as int].members@.len(),
                    j <= n,
                    out@.len() == j,
                    forall|l: int|
                        0 <= l < j ==> out@[l].conn == self.rooms@[k as int].members@[l].conn
                            && out@[l].line@ == line@,
                decreases n - j,
            {
                let c = self.rooms[k].members[j].conn;
                out.push(Outbound { conn: c, line: String::from_str(line) });
                j = j + 1;
            }
        }
        out
    }

    /// The membership-order name list of the named room; `None` when the
    /// room is absent.
    pub fn snapshot_users(&self, room: &str) -> (r: Option<Vec<String>>)
        ensures
            match r {
                Some(users) => self.has_room(room@) && users.deep_view() == self.users_of(room@),
                None => !self.has_room(room@),
            },
    {
        let k = self.find_room_from(room, 0);
        if k < self.rooms.len() {
            let n = self.rooms[k].members.len();
            let mut users: Vec<String> = Vec::new();
            let mut j: usize = 0;
            while j < n
                invariant
                    k < self.rooms@.len(),
                    n == self.rooms@[k as int].members@.len(),
                    j <= n,
                    users@.len() == j,
                    forall|l: int| 0 <= l < j ==> users@[l]@ == self.rooms@[k as int].members@[l].name@,
                decreases n - j,
            {
                users.push(self.rooms[k].members[j].name.clone());
                j = j + 1;
            }
            proof {
                assert(users.deep_view() =~= self.users_of(room@));
            }
            Some(users)
        } else {
            None
        }
    }

    /// The connection of the first member of this display name in the
    /// named room; `None` when room or member is absent.
    pub fn find_member_conn(&self, room: &str, name: &str) -> (r: Option<u64>)
        ensures
            r == self.requester_conn(room@, name@),
    {
        let k = self.find_room_from(room, 0);
        if k < self.rooms.len() {
            let mi = find_member_from(&self.rooms[k].members, name, 0);
            if mi < self.rooms[k].members.len() {
                Some(self.rooms[k].members[mi].conn)
            } else {
                None
            }
        } else {
            None
        }
    }
}

fn find_member_from(ms: &Vec<Member>, name: &str, i: usize) -> (r: usize)
    requires
        i <= ms@.len(),
    ensures
        r as int == member_index_from(ms@, name@, i as int),
    decreases ms@.len() - i,
{
    if i >= ms.len() {
        ms.len()
    } else if str_eq(ms[i].name.as_str(), name) {
        i
    } else {
        find_member_from(ms, name, i + 1)
    }
}

} // verus!
