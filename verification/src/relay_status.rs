//! The status report of the mobile relay: its counters and one line per
//! room, in the order of the room names.
use vstd::prelude::*;
use crate::rooms::{
    lemma_room_map_index, names_distinct, room_map, RelayState, RoomState, RoomView,
};
use crate::text::{chars_of, owned};

verus! {

/// `a` sorts before `b`: the order of `str` comparison, which compares the
/// UTF-8 bytes and so orders characters by code point.
pub open spec fn lex_lt(a: Seq<char>, b: Seq<char>) -> bool
    decreases a.len(),
{
    if b.len() == 0 {
        false
    } else if a.len() == 0 {
        true
    } else if a[0] != b[0] {
        (a[0] as u32) < (b[0] as u32)
    } else {
        lex_lt(a.drop_first(), b.drop_first())
    }
}

pub proof fn lemma_lex_transitive(a: Seq<char>, b: Seq<char>, c: Seq<char>)
    requires
        lex_lt(a, b),
        lex_lt(b, c),
    ensures
        lex_lt(a, c),
    decreases a.len(),
{
    if a.len() > 0 && a[0] == b[0] && b[0] == c[0] {
        lemma_lex_transitive(a.drop_first(), b.drop_first(), c.drop_first());
    }
}

pub proof fn lemma_lex_total(a: Seq<char>, b: Seq<char>)
    requires
        a != b,
    ensures
        lex_lt(a, b) || lex_lt(b, a),
    decreases a.len(),
{
    if a.len() == 0 && b.len() == 0 {
        assert(a =~= b);
    }
    if a.len() > 0 && b.len() > 0 && a[0] == b[0] {
        if a.drop_first() == b.drop_first() {
            assert(a =~= seq![a[0]] + a.drop_first());
            assert(b =~= seq![b[0]] + b.drop_first());
        }
        lemma_lex_total(a.drop_first(), b.drop_first());
    } else if a.len() > 0 && b.len() > 0 {
        vstd::utf8::char_u32_cast(a[0], a[0] as u32);
        vstd::utf8::char_u32_cast(b[0], b[0] as u32);
    }
}

pub proof fn lemma_lex_asymmetric(a: Seq<char>, b: Seq<char>)
    requires
        lex_lt(a, b),
    ensures
        !lex_lt(b, a),
        a != b,
    decreases a.len(),
{
    if a.len() > 0 && a[0] == b[0] {
        lemma_lex_asymmetric(a.drop_first(), b.drop_first());
    }
}

/// Whether `a` sorts before `b`.
pub fn lex_less(a: &Vec<char>, b: &Vec<char>) -> (r: bool)
    ensures
        r == lex_lt(a@, b@),
{
    let mut k: usize = 0;
    proof {
        assert(a@.skip(0) =~= a@);
        assert(b@.skip(0) =~= b@);
    }
    while k < a.len() && k < b.len()
        invariant
            k <= a@.len(),
            k <= b@.len(),
            a@.take(k as int) == b@.take(k as int),
            lex_lt(a@, b@) == lex_lt(a@.skip(k as int), b@.skip(k as int)),
        decreases a.len() - k,
    {
        let x = a[k];
        let y = b[k];
        if x != y {
            return (x as u32) < (y as u32);
        }
        proof {
            assert(a@.skip(k as int).drop_first() =~= a@.skip(k + 1));
            assert(b@.skip(k as int).drop_first() =~= b@.skip(k + 1));
            assert(a@.take(k + 1) =~= a@.take(k as int).push(x));
            assert(b@.take(k + 1) =~= b@.take(k as int).push(y));
        }
        k = k + 1;
    }
    k < b.len()
}

/// One room as the status page shows it.
#[derive(Debug)]
pub struct RoomStatus {
    pub room: String,
    pub host_online: bool,
    pub client_online: bool,
    pub connections: u8,
    pub age_seconds: u64,
    pub forwarded_messages: u64,
    pub forwarded_bytes: u64,
}

/// The status page's line for the room `name`, at `now_ms`.
pub open spec fn room_line(d: RoomStatus, name: Seq<char>, v: RoomView, now_ms: u64) -> bool {
    &&& d.room@ == name
    &&& d.host_online == v.host is Some
    &&& d.client_online == v.client is Some
    &&& d.connections == (if v.host is Some { 1u8 } else { 0u8 }) + (if v.client is Some {
        1u8
    } else {
        0u8
    })
    &&& d.age_seconds == now_ms.saturating_sub(v.connected_at_ms) / 1000
    &&& d.forwarded_messages == v.forwarded_messages
    &&& d.forwarded_bytes == v.forwarded_bytes
}

/// The lines are in strictly increasing order of room name.
pub open spec fn sorted_by_room(lines: Seq<RoomStatus>) -> bool {
    forall|p: int, q: int| 0 <= p < q < lines.len() ==> lex_lt(#[trigger] lines[p].room@, #[trigger] lines[q].room@)
}

/// The status report.
#[derive(Debug)]
pub struct RelayStatus {
    pub status: String,
    pub service: String,
    pub version: String,
    pub uptime_seconds: u64,
    pub rooms: usize,
    pub active_connections: u64,
    pub total_connections: u64,
    pub forwarded_messages: u64,
    pub forwarded_bytes: u64,
    pub room_details: Vec<RoomStatus>,
}

fn room_status(name: &String, state: &RoomState, now_ms: u64) -> (r: RoomStatus)
    ensures
        room_line(r, name@, state@, now_ms),
{
    let host_online = state.host.is_some();
    let client_online = state.client.is_some();
    let connections: u8 = (if host_online { 1u8 } else { 0u8 }) + (if client_online { 1u8 } else { 0u8 });
    RoomStatus {
        room: name.clone(),
        host_online,
        client_online,
        connections,
        age_seconds: now_ms.saturating_sub(state.connected_at_ms) / 1000,
        forwarded_messages: state.forwarded_messages,
        forwarded_bytes: state.forwarded_bytes,
    }
}

/// Inserts `line` into sorted `lines` at its place.
fn insert_sorted(lines: &mut Vec<RoomStatus>, line: RoomStatus)
    requires
        sorted_by_room(old(lines)@),
        forall|p: int| 0 <= p < old(lines)@.len() ==> #[trigger] old(lines)@[p].room@ != line.room@,
    ensures
        sorted_by_room(final(lines)@),
        final(lines)@.len() == old(lines)@.len() + 1,
        exists|j: int| 0 <= j <= old(lines)@.len() && final(lines)@ == old(lines)@.insert(j, line),
{
    let name = chars_of(line.room.as_str());
    let mut j: usize = 0;
    while j < lines.len() && !lex_less(&name, &chars_of(lines[j].room.as_str()))
        invariant
            j <= lines@.len(),
            lines@ == old(lines)@,
            name@ == line.room@,
            forall|p: int| 0 <= p < lines@.len() ==> #[trigger] lines@[p].room@ != line.room@,
            forall|p: int| 0 <= p < j ==> lex_lt(#[trigger] lines@[p].room@, line.room@),
        decreases lines.len() - j,
    {
        proof {
            lemma_lex_total(lines@[j as int].room@, line.room@);
        }
        j = j + 1;
    }
    let ghost before = lines@;
    lines.insert(j, line);
    proof {
        assert forall|p: int, q: int| 0 <= p < q < lines@.len() implies lex_lt(
            #[trigger] lines@[p].room@,
            #[trigger] lines@[q].room@,
        ) by {
            if q < j {
                assert(lines@[p] == before[p] && lines@[q] == before[q]);
            } else if q == j {
                assert(lines@[p] == before[p]);
            } else if p == j {
                assert(lines@[q] == before[q - 1]);
                if q - 1 > j {
                    lemma_lex_transitive(line.room@, before[j as int].room@, before[q - 1].room@);
                }
            } else if p < j {
                assert(lines@[p] == before[p]);
                assert(lines@[q] == before[q - 1]);
                lemma_lex_transitive(before[p].room@, line.room@, before[j as int].room@);
                if q - 1 > j {
                    lemma_lex_transitive(before[p].room@, before[j as int].room@, before[q - 1].room@);
                }
            } else {
                assert(lines@[p] == before[p - 1]);
                assert(lines@[q] == before[q - 1]);
            }
        }
    }
}

impl RelayState {
    /// The status report at `now_ms`: the counters, the uptime since start,
    /// and one line per room in the order of the room names.
    pub fn relay_status(&self, now_ms: u64, version: &str) -> (r: RelayStatus)
        requires
            self.wf(),
        ensures
            r.status@ == "ok"@,
            r.service@ == "codex-plus-mobile-relay"@,
            r.version@ == version@,
            r.uptime_seconds == match self.started_at_ms {
                Some(started) => now_ms.saturating_sub(started) / 1000,
                None => 0,
            },
            r.rooms == self.rooms@.len(),
            r.active_connections == self.active_connections,
            r.total_connections == self.total_connections,
            r.forwarded_messages == self.forwarded_messages,
            r.forwarded_bytes == self.forwarded_bytes,
            r.room_details@.len() == self.room_views().dom().len(),
            sorted_by_room(r.room_details@),
            forall|i: int|
                0 <= i < r.room_details@.len() ==> self.room_views().dom().contains(
                    #[trigger] r.room_details@[i].room@,
                ) && room_line(
                    r.room_details@[i],
                    r.room_details@[i].room@,
                    self.room_views()[r.room_details@[i].room@],
                    now_ms,
                ),
            forall|name: Seq<char>|
                #[trigger] self.room_views().dom().contains(name) ==> exists|i: int|
                    0 <= i < r.room_details@.len() && r.room_details@[i].room@ == name,
    {
        let mut lines: Vec<RoomStatus> = Vec::new();
        let mut k: usize = 0;
        while k < self.rooms.len()
            invariant
                k <= self.rooms@.len(),
                self.wf(),
                lines@.len() == k,
                sorted_by_room(lines@),
                forall|i: int|
                    0 <= i < lines@.len() ==> exists|n: int|
                        0 <= n < k && #[trigger] lines@[i].room@ == #[trigger] self.rooms@[n].0@
                            && room_line(lines@[i], self.rooms@[n].0@, self.rooms@[n].1@, now_ms),
                forall|n: int|
                    0 <= n < k ==> exists|i: int|
                        0 <= i < lines@.len() && #[trigger] lines@[i].room@ == #[trigger] self.rooms@[n].0@,
            decreases self.rooms.len() - k,
        {
            let line = room_status(&self.rooms[k].0, &self.rooms[k].1, now_ms);
            proof {
                assert forall|p: int| 0 <= p < lines@.len() implies #[trigger] lines@[p].room@
                    != line.room@ by {
                    let n = choose|n: int|
                        0 <= n < k && #[trigger] lines@[p].room@ == #[trigger] self.rooms@[n].0@
                            && room_line(lines@[p], self.rooms@[n].0@, self.rooms@[n].1@, now_ms);
                    assert(self.rooms@[n].0@ != self.rooms@[k as int].0@);
                }
            }
            let ghost before = lines@;
            insert_sorted(&mut lines, line);
            proof {
                let j = choose|j: int| 0 <= j <= before.len() && lines@ == before.insert(j, line);
                assert(lines@[j] == line);
                assert(lines@[j].room@ == self.rooms@[k as int].0@);
                assert forall|i: int| 0 <= i < lines@.len() implies exists|n: int|
                    0 <= n < k + 1 && #[trigger] lines@[i].room@ == #[trigger] self.rooms@[n].0@
                        && room_line(lines@[i], self.rooms@[n].0@, self.rooms@[n].1@, now_ms) by {
                    if i == j {
                        assert(lines@[i].room@ == self.rooms@[k as int].0@);
                    } else {
                        let i2 = if i < j { i } else { i - 1 };
                        assert(lines@[i] == before[i2]);
                        let n = choose|n: int|
                            0 <= n < k && #[trigger] before[i2].room@ == #[trigger] self.rooms@[n].0@
                                && room_line(before[i2], self.rooms@[n].0@, self.rooms@[n].1@, now_ms);
                        assert(lines@[i].room@ == self.rooms@[n].0@);
                    }
                }
                assert forall|n: int| 0 <= n < k + 1 implies exists|i: int|
                    0 <= i < lines@.len() && #[trigger] lines@[i].room@ == #[trigger] self.rooms@[n].0@ by {
                    if n == k {
                        assert(lines@[j].room@ == self.rooms@[n].0@);
                    } else {
                        let i = choose|i: int|
                            0 <= i < before.len() && #[trigger] before[i].room@ == #[trigger] self.rooms@[n].0@;
                        let i2 = if i < j { i } else { i + 1 };
                        assert(lines@[i2] == before[i]);
                        assert(lines@[i2].room@ == self.rooms@[n].0@);
                    }
                }
            }
            k = k + 1;
        }
        proof {
            lemma_room_count(self.rooms@);
            assert forall|i: int| 0 <= i < lines@.len() implies self.room_views().dom().contains(
                #[trigger] lines@[i].room@,
            ) && room_line(
                lines@[i],
                lines@[i].room@,
                self.room_views()[lines@[i].room@],
                now_ms,
            ) by {
                let n = choose|n: int|
                    0 <= n < k && #[trigger] lines@[i].room@ == #[trigger] self.rooms@[n].0@
                        && room_line(lines@[i], self.rooms@[n].0@, self.rooms@[n].1@, now_ms);
                lemma_room_map_index(self.rooms@, n);
            }
            assert forall|name: Seq<char>| #[trigger] self.room_views().dom().contains(name) implies exists|i: int|
                0 <= i < lines@.len() && lines@[i].room@ == name by {
                let n = choose|n: int| 0 <= n < self.rooms@.len() && #[trigger] self.rooms@[n].0@ == name;
                let i = choose|i: int|
                    0 <= i < lines@.len() && #[trigger] lines@[i].room@ == #[trigger] self.rooms@[n].0@;
                assert(lines@[i].room@ == name);
            }
        }
        let uptime_seconds = match self.started_at_ms {
            Some(started) => now_ms.saturating_sub(started) / 1000,
            None => 0,
        };
        RelayStatus {
            status: owned("ok"),
            service: owned("codex-plus-mobile-relay"),
            version: owned(version),
            uptime_seconds,
            rooms: self.rooms.len(),
            active_connections: self.active_connections,
            total_connections: self.total_connections,
            forwarded_messages: self.forwarded_messages,
            forwarded_bytes: self.forwarded_bytes,
            room_details: lines,
        }
    }
}

/// With distinct names, there are as many rooms by name as entries.
pub proof fn lemma_room_count(rooms: Seq<(String, RoomState)>)
    requires
        names_distinct(rooms),
    ensures
        room_map(rooms).dom().finite(),
        room_map(rooms).dom().len() == rooms.len(),
    decreases rooms.len(),
{
    if rooms.len() == 0 {
        assert(room_map(rooms).dom() =~= Set::<Seq<char>>::empty());
    } else {
        let init = rooms.drop_last();
        let last = rooms.last();
        assert(names_distinct(init)) by {
            assert forall|p: int, q: int|
                0 <= p < init.len() && 0 <= q < init.len() && p != q implies #[trigger] init[p].0@
                != #[trigger] init[q].0@ by {
                assert(init[p] == rooms[p] && init[q] == rooms[q]);
            }
        }
        lemma_room_count(init);
        assert(room_map(rooms).dom() =~= room_map(init).dom().insert(last.0@)) by {
            assert forall|n: Seq<char>| #[trigger] room_map(rooms).dom().contains(n) <==> room_map(
                init,
            ).dom().insert(last.0@).contains(n) by {
                if exists|i: int| 0 <= i < rooms.len() && #[trigger] rooms[i].0@ == n {
                    let i = choose|i: int| 0 <= i < rooms.len() && #[trigger] rooms[i].0@ == n;
                    if i < init.len() {
                        assert(init[i].0@ == n);
                    }
                }
                if exists|i: int| 0 <= i < init.len() && #[trigger] init[i].0@ == n {
                    let i = choose|i: int| 0 <= i < init.len() && #[trigger] init[i].0@ == n;
                    assert(rooms[i].0@ == n);
                }
                if n == last.0@ {
                    assert(rooms[rooms.len() - 1].0@ == n);
                }
            }
        }
        assert(!room_map(init).dom().contains(last.0@)) by {
            if exists|i: int| 0 <= i < init.len() && #[trigger] init[i].0@ == last.0@ {
                let i = choose|i: int| 0 <= i < init.len() && #[trigger] init[i].0@ == last.0@;
                assert(rooms[i].0@ == rooms[rooms.len() - 1].0@);
            }
        }
    }
}

} // verus!
