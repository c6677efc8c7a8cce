//! The rooms of the mobile relay. Each room pairs at most one host with at
//! most one client under a token; peers are named by the numbers the server
//! gives its connections.
use vstd::prelude::*;
use vstd::map::*;
use crate::relay::{other_role, Registration, Role};
use crate::text::{chars_of, vec_eq};

verus! {

/// One room: its token, the peer on each side, when it opened and what it
/// has forwarded.
#[derive(Debug)]
pub struct RoomState {
    pub token: String,
    pub host: Option<u64>,
    pub client: Option<u64>,
    pub connected_at_ms: u64,
    pub forwarded_messages: u64,
    pub forwarded_bytes: u64,
}

/// What a room holds, as plain values.
pub struct RoomView {
    pub token: Seq<char>,
    pub host: Option<u64>,
    pub client: Option<u64>,
    pub connected_at_ms: u64,
    pub forwarded_messages: u64,
    pub forwarded_bytes: u64,
}

impl View for RoomState {
    type V = RoomView;

    open spec fn view(&self) -> RoomView {
        RoomView {
            token: self.token@,
            host: self.host,
            client: self.client,
            connected_at_ms: self.connected_at_ms,
            forwarded_messages: self.forwarded_messages,
            forwarded_bytes: self.forwarded_bytes,
        }
    }
}

/// The peer on the `role` side of a room.
pub open spec fn slot(v: RoomView, role: Role) -> Option<u64> {
    match role {
        Role::Host => v.host,
        Role::Client => v.client,
    }
}

/// The room with its `role` side set to `peer`.
pub open spec fn with_slot(v: RoomView, role: Role, peer: Option<u64>) -> RoomView {
    match role {
        Role::Host => RoomView {
            token: v.token,
            host: peer,
            client: v.client,
            connected_at_ms: v.connected_at_ms,
            forwarded_messages: v.forwarded_messages,
            forwarded_bytes: v.forwarded_bytes,
        },
        Role::Client => RoomView {
            token: v.token,
            host: v.host,
            client: peer,
            connected_at_ms: v.connected_at_ms,
            forwarded_messages: v.forwarded_messages,
            forwarded_bytes: v.forwarded_bytes,
        },
    }
}

/// A new room under `token`, opened at `now_ms`, with no peer yet.
pub open spec fn fresh_room(token: Seq<char>, now_ms: u64) -> RoomView {
    RoomView {
        token,
        host: None,
        client: None,
        connected_at_ms: now_ms,
        forwarded_messages: 0,
        forwarded_bytes: 0,
    }
}

pub open spec fn room_is_empty(v: RoomView) -> bool {
    v.host is None && v.client is None
}

impl RoomState {
    /// A room under `token`, opened at `now_ms`.
    pub fn new(token: String, now_ms: u64) -> (r: RoomState)
        ensures
            r@ == fresh_room(token@, now_ms),
    {
        RoomState {
            token,
            host: None,
            client: None,
            connected_at_ms: now_ms,
            forwarded_messages: 0,
            forwarded_bytes: 0,
        }
    }

    /// The peer on the `role` side.
    pub fn sender_for(&self, role: Role) -> (r: Option<u64>)
        ensures
            r == slot(self@, role),
    {
        match role {
            Role::Host => self.host,
            Role::Client => self.client,
        }
    }

    /// Puts `peer` on the `role` side; returns the peer it replaces, which
    /// the server closes.
    pub fn set_sender(&mut self, role: Role, peer: u64) -> (previous: Option<u64>)
        ensures
            previous == slot(old(self)@, role),
            final(self)@ == with_slot(old(self)@, role, Some(peer)),
    {
        match role {
            Role::Host => {
                let previous = self.host;
                self.host = Some(peer);
                previous
            },
            Role::Client => {
                let previous = self.client;
                self.client = Some(peer);
                previous
            },
        }
    }

    /// Empties the `role` side.
    pub fn clear_sender(&mut self, role: Role)
        ensures
            final(self)@ == with_slot(old(self)@, role, None),
    {
        match role {
            Role::Host => self.host = None,
            Role::Client => self.client = None,
        }
    }

    /// Neither side holds a peer.
    pub fn is_empty(&self) -> (r: bool)
        ensures
            r == room_is_empty(self@),
    {
        self.host.is_none() && self.client.is_none()
    }
}

/// No two rooms share a name.
pub open spec fn names_distinct(rooms: Seq<(String, RoomState)>) -> bool {
    forall|i: int, j: int|
        0 <= i < rooms.len() && 0 <= j < rooms.len() && i != j ==> #[trigger] rooms[i].0@
            != #[trigger] rooms[j].0@
}

pub open spec fn has_room(rooms: Seq<(String, RoomState)>, name: Seq<char>) -> bool {
    exists|i: int| 0 <= i < rooms.len() && #[trigger] rooms[i].0@ == name
}

/// The rooms by name.
pub open spec fn room_map(rooms: Seq<(String, RoomState)>) -> Map<Seq<char>, RoomView> {
    Map::new(
        |name: Seq<char>| has_room(rooms, name),
        |name: Seq<char>|
            rooms[choose|i: int| 0 <= i < rooms.len() && #[trigger] rooms[i].0@ == name].1@,
    )
}

pub proof fn lemma_room_map_index(rooms: Seq<(String, RoomState)>, i: int)
    requires
        names_distinct(rooms),
        0 <= i < rooms.len(),
    ensures
        room_map(rooms).dom().contains(rooms[i].0@),
        room_map(rooms)[rooms[i].0@] == rooms[i].1@,
{
    let name = rooms[i].0@;
    assert(has_room(rooms, name));
    let k = choose|k: int| 0 <= k < rooms.len() && #[trigger] rooms[k].0@ == name;
    assert(k == i);
}

pub proof fn lemma_room_map_update(
    rooms: Seq<(String, RoomState)>,
    i: int,
    entry: (String, RoomState),
)
    requires
        names_distinct(rooms),
        0 <= i < rooms.len(),
        entry.0@ == rooms[i].0@,
    ensures
        names_distinct(rooms.update(i, entry)),
        room_map(rooms.update(i, entry)) == room_map(rooms).insert(entry.0@, entry.1@),
{
    let new = rooms.update(i, entry);
    assert forall|p: int, q: int|
        0 <= p < new.len() && 0 <= q < new.len() && p != q implies #[trigger] new[p].0@
        != #[trigger] new[q].0@ by {
        assert(rooms[p].0@ != rooms[q].0@);
    }
    let m = room_map(rooms).insert(entry.0@, entry.1@);
    assert forall|n: Seq<char>| #[trigger] room_map(new).dom().contains(n) <==> m.dom().contains(n) by {
        if has_room(new, n) {
            let k = choose|k: int| 0 <= k < new.len() && #[trigger] new[k].0@ == n;
            if k != i {
                assert(rooms[k].0@ == n);
            }
        }
        if has_room(rooms, n) {
            let k = choose|k: int| 0 <= k < rooms.len() && #[trigger] rooms[k].0@ == n;
            if k == i {
                assert(new[i].0@ == n);
            } else {
                assert(new[k].0@ == n);
            }
        }
        if n == entry.0@ {
            assert(new[i].0@ == n);
        }
    }
    assert forall|n: Seq<char>| #[trigger] room_map(new).dom().contains(n) implies room_map(new)[n]
        == m[n] by {
        let k = choose|k: int| 0 <= k < new.len() && #[trigger] new[k].0@ == n;
        lemma_room_map_index(new, k);
        if k != i {
            lemma_room_map_index(rooms, k);
        }
    }
    assert(room_map(new) =~= m);
}

pub proof fn lemma_room_map_push(rooms: Seq<(String, RoomState)>, entry: (String, RoomState))
    requires
        names_distinct(rooms),
        !has_room(rooms, entry.0@),
    ensures
        names_distinct(rooms.push(entry)),
        room_map(rooms.push(entry)) == room_map(rooms).insert(entry.0@, entry.1@),
{
    let new = rooms.push(entry);
    let last = rooms.len() as int;
    assert forall|p: int, q: int|
        0 <= p < new.len() && 0 <= q < new.len() && p != q implies #[trigger] new[p].0@
        != #[trigger] new[q].0@ by {
        if p != last && q != last {
            assert(rooms[p].0@ != rooms[q].0@);
        } else if p == last {
            assert(new[q].0@ == rooms[q].0@);
        } else {
            assert(new[p].0@ == rooms[p].0@);
        }
    }
    let m = room_map(rooms).insert(entry.0@, entry.1@);
    assert forall|n: Seq<char>| #[trigger] room_map(new).dom().contains(n) <==> m.dom().contains(n) by {
        if has_room(new, n) {
            let k = choose|k: int| 0 <= k < new.len() && #[trigger] new[k].0@ == n;
            if k != last {
                assert(rooms[k].0@ == n);
            }
        }
        if has_room(rooms, n) {
            let k = choose|k: int| 0 <= k < rooms.len() && #[trigger] rooms[k].0@ == n;
            assert(new[k].0@ == n);
        }
        if n == entry.0@ {
            assert(new[last].0@ == n);
        }
    }
    assert forall|n: Seq<char>| #[trigger] room_map(new).dom().contains(n) implies room_map(new)[n]
        == m[n] by {
        let k = choose|k: int| 0 <= k < new.len() && #[trigger] new[k].0@ == n;
        lemma_room_map_index(new, k);
        if k != last {
            lemma_room_map_index(rooms, k);
        }
    }
    assert(room_map(new) =~= m);
}

pub proof fn lemma_room_map_remove(rooms: Seq<(String, RoomState)>, i: int)
    requires
        names_distinct(rooms),
        0 <= i < rooms.len(),
    ensures
        names_distinct(rooms.remove(i)),
        room_map(rooms.remove(i)) == room_map(rooms).remove(rooms[i].0@),
{
    let new = rooms.remove(i);
    assert forall|p: int, q: int|
        0 <= p < new.len() && 0 <= q < new.len() && p != q implies #[trigger] new[p].0@
        != #[trigger] new[q].0@ by {
        let p2 = if p < i { p } else { p + 1 };
        let q2 = if q < i { q } else { q + 1 };
        assert(new[p] == rooms[p2]);
        assert(new[q] == rooms[q2]);
        assert(rooms[p2].0@ != rooms[q2].0@);
    }
    let m = room_map(rooms).remove(rooms[i].0@);
    assert forall|n: Seq<char>| #[trigger] room_map(new).dom().contains(n) <==> m.dom().contains(n) by {
        if has_room(new, n) {
            let k = choose|k: int| 0 <= k < new.len() && #[trigger] new[k].0@ == n;
            let k2 = if k < i { k } else { k + 1 };
            assert(new[k] == rooms[k2]);
            assert(rooms[k2].0@ == n);
            assert(k2 != i);
            assert(rooms[i].0@ != n);
        }
        if has_room(rooms, n) && n != rooms[i].0@ {
            let k = choose|k: int| 0 <= k < rooms.len() && #[trigger] rooms[k].0@ == n;
            assert(k != i);
            let k2 = if k < i { k } else { k - 1 };
            assert(new[k2] == rooms[k]);
            assert(new[k2].0@ == n);
        }
    }
    assert forall|n: Seq<char>| #[trigger] room_map(new).dom().contains(n) implies room_map(new)[n]
        == m[n] by {
        let k = choose|k: int| 0 <= k < new.len() && #[trigger] new[k].0@ == n;
        let k2 = if k < i { k } else { k + 1 };
        assert(new[k] == rooms[k2]);
        lemma_room_map_index(new, k);
        lemma_room_map_index(rooms, k2);
    }
    assert(room_map(new) =~= m);
}

/// Why a registration is refused.
#[derive(Debug, PartialEq, Eq)]
pub enum RelayError {
    /// The room exists under another token.
    TokenMismatch,
}

/// The relay: its rooms and its counters.
#[derive(Debug)]
pub struct RelayState {
    pub rooms: Vec<(String, RoomState)>,
    pub started_at_ms: Option<u64>,
    pub total_connections: u64,
    pub active_connections: u64,
    pub forwarded_messages: u64,
    pub forwarded_bytes: u64,
}

/// Registering under `token` is refused: the room exists with another token.
pub open spec fn token_mismatch(m: Map<Seq<char>, RoomView>, room: Seq<char>, token: Seq<char>) -> bool {
    m.dom().contains(room) && m[room].token != token
}

/// The rooms once `peer` holds the `role` side of `room` (opened at `now_ms`
/// under `token` when it did not exist).
pub open spec fn after_register(
    m: Map<Seq<char>, RoomView>,
    room: Seq<char>,
    token: Seq<char>,
    role: Role,
    peer: u64,
    now_ms: u64,
) -> Map<Seq<char>, RoomView> {
    let base = if m.dom().contains(room) {
        m[room]
    } else {
        fresh_room(token, now_ms)
    };
    m.insert(room, with_slot(base, role, Some(peer)))
}

/// The peer that a message sent from the `role` side of `room` goes to.
pub open spec fn forward_target(m: Map<Seq<char>, RoomView>, room: Seq<char>, role: Role) -> Option<
    u64,
> {
    if m.dom().contains(room) {
        slot(m[room], other_role(role))
    } else {
        None
    }
}

/// The rooms once a message of `bytes` bytes passed through `room`.
pub open spec fn after_forward(m: Map<Seq<char>, RoomView>, room: Seq<char>, bytes: u64) -> Map<
    Seq<char>,
    RoomView,
> {
    if m.dom().contains(room) {
        let v = m[room];
        m.insert(
            room,
            RoomView {
                token: v.token,
                host: v.host,
                client: v.client,
                connected_at_ms: v.connected_at_ms,
                forwarded_messages: v.forwarded_messages.saturating_add(1),
                forwarded_bytes: v.forwarded_bytes.saturating_add(bytes),
            },
        )
    } else {
        m
    }
}

/// The rooms once `peer` left the `role` side of `room`: the side is emptied
/// only if `peer` still holds it, and a room with no peer left is dropped.
pub open spec fn after_unregister(
    m: Map<Seq<char>, RoomView>,
    room: Seq<char>,
    role: Role,
    peer: u64,
) -> Map<Seq<char>, RoomView> {
    if m.dom().contains(room) {
        let v = if slot(m[room], role) == Some(peer) {
            with_slot(m[room], role, None)
        } else {
            m[room]
        };
        if room_is_empty(v) {
            m.remove(room)
        } else {
            m.insert(room, v)
        }
    } else {
        m
    }
}

impl RelayState {
    /// Room names are distinct and every room holds a peer.
    pub open spec fn wf(&self) -> bool {
        &&& names_distinct(self.rooms@)
        &&& forall|i: int| 0 <= i < self.rooms@.len() ==> !room_is_empty(#[trigger] self.rooms@[i].1@)
    }

    pub open spec fn room_views(&self) -> Map<Seq<char>, RoomView> {
        room_map(self.rooms@)
    }

    /// A relay with no room, started at `started_at_ms`.
    pub fn new(started_at_ms: u64) -> (r: RelayState)
        ensures
            r.wf(),
            r.room_views() == Map::<Seq<char>, RoomView>::empty(),
            r.started_at_ms == Some(started_at_ms),
            r.total_connections == 0,
            r.active_connections == 0,
            r.forwarded_messages == 0,
            r.forwarded_bytes == 0,
    {
        let r = RelayState {
            rooms: Vec::new(),
            started_at_ms: Some(started_at_ms),
            total_connections: 0,
            active_connections: 0,
            forwarded_messages: 0,
            forwarded_bytes: 0,
        };
        assert(r.room_views() =~= Map::<Seq<char>, RoomView>::empty());
        r
    }

    /// The index of the room named `name`.
    pub fn find_room(&self, name: &str) -> (r: Option<usize>)
        requires
            self.wf(),
        ensures
            match r {
                Some(i) => i < self.rooms@.len() && self.rooms@[i as int].0@ == name@,
                None => !has_room(self.rooms@, name@),
            },
    {
        let wanted = chars_of(name);
        let mut i: usize = 0;
        while i < self.rooms.len()
            invariant
                i <= self.rooms@.len(),
                wanted@ == name@,
                forall|k: int| 0 <= k < i ==> #[trigger] self.rooms@[k].0@ != name@,
            decreases self.rooms.len() - i,
        {
            let candidate = chars_of(self.rooms[i].0.as_str());
            if vec_eq(&candidate, &wanted) {
                return Some(i);
            }
            i = i + 1;
        }
        None
    }

    /// Counts the connection, then gives `peer` the side of the room that
    /// `registration` names, opening the room under its token when it does
    /// not exist. Returns the peer that held that side before (the server
    /// closes it), or refuses when the room has another token.
    pub fn register_peer(&mut self, registration: &Registration, peer: u64, now_ms: u64) -> (r:
        Result<Option<u64>, RelayError>)
        requires
            old(self).wf(),
        ensures
            final(self).wf(),
            final(self).total_connections == old(self).total_connections.saturating_add(1),
            final(self).active_connections == old(self).active_connections.saturating_add(1),
            final(self).forwarded_messages == old(self).forwarded_messages,
            final(self).forwarded_bytes == old(self).forwarded_bytes,
            final(self).started_at_ms == old(self).started_at_ms,
            if token_mismatch(old(self).room_views(), registration.room@, registration.token@) {
                &&& r == Err::<Option<u64>, RelayError>(RelayError::TokenMismatch)
                &&& final(self).room_views() == old(self).room_views()
            } else {
                &&& r == Ok::<Option<u64>, RelayError>(
                    if old(self).room_views().dom().contains(registration.room@) {
                        slot(old(self).room_views()[registration.room@], registration.role)
                    } else {
                        None
                    },
                )
                &&& final(self).room_views() == after_register(
                    old(self).room_views(),
                    registration.room@,
                    registration.token@,
                    registration.role,
                    peer,
                    now_ms,
                )
            },
    {
        self.total_connections = self.total_connections.saturating_add(1);
        self.active_connections = self.active_connections.saturating_add(1);
        let ghost m = room_map(self.rooms@);
        match self.find_room(registration.room.as_str()) {
            Some(i) => {
                proof {
                    lemma_room_map_index(self.rooms@, i as int);
                }
                let same = vec_eq(
                    &chars_of(self.rooms[i].1.token.as_str()),
                    &chars_of(registration.token.as_str()),
                );
                if !same {
                    return Err(RelayError::TokenMismatch);
                }
                let mut entry = self.rooms.remove(i);
                let previous = entry.1.set_sender(registration.role, peer);
                self.rooms.insert(i, entry);
                proof {
                    assert(self.rooms@ =~= old(self).rooms@.update(i as int, self.rooms@[i as int]));
                    lemma_room_map_update(old(self).rooms@, i as int, self.rooms@[i as int]);
                    assert forall|k: int| 0 <= k < self.rooms@.len() implies !room_is_empty(
                        #[trigger] self.rooms@[k].1@,
                    ) by {
                        if k != i {
                            assert(self.rooms@[k] == old(self).rooms@[k]);
                        }
                    }
                }
                Ok(previous)
            },
            None => {
                let mut state = RoomState::new(registration.token.clone(), now_ms);
                let previous = state.set_sender(registration.role, peer);
                let entry = (registration.room.clone(), state);
                proof {
                    lemma_room_map_push(self.rooms@, entry);
                }
                self.rooms.push(entry);
                proof {
                    assert forall|k: int| 0 <= k < self.rooms@.len() implies !room_is_empty(
                        #[trigger] self.rooms@[k].1@,
                    ) by {
                        if k < old(self).rooms@.len() {
                            assert(self.rooms@[k] == old(self).rooms@[k]);
                        }
                    }
                }
                Ok(previous)
            },
        }
    }

    /// Counts a message of `bytes` bytes sent by the `role` peer of `room`
    /// and returns the peer on the other side, which it goes to.
    pub fn forward_message(&mut self, room: &str, role: Role, bytes: u64) -> (r: Option<u64>)
        requires
            old(self).wf(),
        ensures
            final(self).wf(),
            r == forward_target(old(self).room_views(), room@, role),
            final(self).room_views() == after_forward(old(self).room_views(), room@, bytes),
            final(self).forwarded_messages == old(self).forwarded_messages.saturating_add(1),
            final(self).forwarded_bytes == old(self).forwarded_bytes.saturating_add(bytes),
            final(self).total_connections == old(self).total_connections,
            final(self).active_connections == old(self).active_connections,
            final(self).started_at_ms == old(self).started_at_ms,
    {
        self.forwarded_messages = self.forwarded_messages.saturating_add(1);
        self.forwarded_bytes = self.forwarded_bytes.saturating_add(bytes);
        match self.find_room(room) {
            Some(i) => {
                proof {
                    lemma_room_map_index(self.rooms@, i as int);
                }
                let mut entry = self.rooms.remove(i);
                entry.1.forwarded_messages = entry.1.forwarded_messages.saturating_add(1);
                entry.1.forwarded_bytes = entry.1.forwarded_bytes.saturating_add(bytes);
                let target = entry.1.sender_for(other_role_of(role));
                self.rooms.insert(i, entry);
                proof {
                    assert(self.rooms@ =~= old(self).rooms@.update(i as int, self.rooms@[i as int]));
                    lemma_room_map_update(old(self).rooms@, i as int, self.rooms@[i as int]);
                    assert forall|k: int| 0 <= k < self.rooms@.len() implies !room_is_empty(
                        #[trigger] self.rooms@[k].1@,
                    ) by {
                        if k != i {
                            assert(self.rooms@[k] == old(self).rooms@[k]);
                        }
                    }
                }
                target
            },
            None => None,
        }
    }

    /// Counts a closed connection; `peer` leaves the `role` side of `room`
    /// if it still holds it, and the room goes when no peer is left.
    pub fn unregister_peer(&mut self, room: &str, role: Role, peer: u64)
        requires
            old(self).wf(),
        ensures
            final(self).wf(),
            final(self).room_views() == after_unregister(old(self).room_views(), room@, role, peer),
            final(self).active_connections == old(self).active_connections.saturating_sub(1),
            final(self).total_connections == old(self).total_connections,
            final(self).forwarded_messages == old(self).forwarded_messages,
            final(self).forwarded_bytes == old(self).forwarded_bytes,
            final(self).started_at_ms == old(self).started_at_ms,
    {
        self.active_connections = self.active_connections.saturating_sub(1);
        match self.find_room(room) {
            Some(i) => {
                proof {
                    lemma_room_map_index(self.rooms@, i as int);
                }
                let mut entry = self.rooms.remove(i);
                let ghost removed = self.rooms@;
                if entry.1.sender_for(role) == Some(peer) {
                    entry.1.clear_sender(role);
                }
                if entry.1.is_empty() {
                    proof {
                        assert(removed =~= old(self).rooms@.remove(i as int));
                        lemma_room_map_remove(old(self).rooms@, i as int);
                        assert forall|k: int| 0 <= k < self.rooms@.len() implies !room_is_empty(
                            #[trigger] self.rooms@[k].1@,
                        ) by {
                            let k2 = if k < i { k } else { k + 1 };
                            assert(self.rooms@[k] == old(self).rooms@[k2]);
                        }
                    }
                } else {
                    self.rooms.insert(i, entry);
                    proof {
                        assert(self.rooms@ =~= old(self).rooms@.update(i as int, self.rooms@[i as int]));
                        lemma_room_map_update(old(self).rooms@, i as int, self.rooms@[i as int]);
                        assert forall|k: int| 0 <= k < self.rooms@.len() implies !room_is_empty(
                            #[trigger] self.rooms@[k].1@,
                        ) by {
                            if k != i {
                                assert(self.rooms@[k] == old(self).rooms@[k]);
                            }
                        }
                    }
                }
            },
            None => {},
        }
    }
}

/// The side opposite `role`.
pub fn other_role_of(role: Role) -> (r: Role)
    ensures
        r == other_role(role),
{
    match role {
        Role::Host => Role::Client,
        Role::Client => Role::Host,
    }
}

/// The kinds of websocket frame the relay forwards.
#[derive(Debug, Clone, Copy, PartialEq, Eq)]
pub enum FrameKind {
    Text,
    Binary,
    Ping,
    Pong,
    Close,
    Frame,
}

/// The bytes a forwarded message counts for: the payload of a text, binary,
/// ping or pong frame, and nothing for the others.
pub fn message_len(kind: FrameKind, payload_len: u64) -> (r: u64)
    ensures
        r == match kind {
            FrameKind::Close | FrameKind::Frame => 0,
            _ => payload_len,
        },
{
    match kind {
        FrameKind::Close | FrameKind::Frame => 0,
        _ => payload_len,
    }
}

/// Once a peer holds a side of a room, whatever the other side sends goes
/// to it.
pub proof fn law_registered_peer_receives(
    m: Map<Seq<char>, RoomView>,
    room: Seq<char>,
    token: Seq<char>,
    role: Role,
    peer: u64,
    now_ms: u64,
)
    requires
        !token_mismatch(m, room, token),
    ensures
        forward_target(after_register(m, room, token, role, peer, now_ms), room, other_role(role))
            == Some(peer),
{
}

/// Registering one side of a room does not change where that side's own
/// messages go: to the peer already on the other side, if any.
pub proof fn law_register_keeps_other_side(
    m: Map<Seq<char>, RoomView>,
    room: Seq<char>,
    token: Seq<char>,
    role: Role,
    peer: u64,
    now_ms: u64,
)
    ensures
        forward_target(after_register(m, room, token, role, peer, now_ms), room, role)
            == forward_target(m, room, role),
{
}

/// A peer that opens a room alone and then leaves takes the room with it:
/// the relay's rooms are as they were.
pub proof fn law_lone_peer_leaves_no_trace(
    m: Map<Seq<char>, RoomView>,
    room: Seq<char>,
    token: Seq<char>,
    role: Role,
    peer: u64,
    now_ms: u64,
)
    requires
        !m.dom().contains(room),
    ensures
        after_unregister(after_register(m, room, token, role, peer, now_ms), room, role, peer)
            == m,
{
    let r = after_unregister(after_register(m, room, token, role, peer, now_ms), room, role, peer);
    assert(r =~= m);
}

/// A peer that was replaced on its side cannot, by leaving, evict the peer
/// that replaced it.
pub proof fn law_replaced_peer_cannot_evict(
    m: Map<Seq<char>, RoomView>,
    room: Seq<char>,
    role: Role,
    replaced: u64,
    current: u64,
)
    requires
        m.dom().contains(room),
        slot(m[room], role) == Some(current),
        replaced != current,
    ensures
        after_unregister(m, room, role, replaced) == m,
{
    assert(after_unregister(m, room, role, replaced) =~= m);
}

/// Forwarding counts traffic and never moves a peer.
pub proof fn law_forward_keeps_peers(
    m: Map<Seq<char>, RoomView>,
    room: Seq<char>,
    bytes: u64,
    other: Seq<char>,
    role: Role,
)
    ensures
        forward_target(after_forward(m, room, bytes), other, role) == forward_target(m, other, role),
        after_forward(m, room, bytes).dom() == m.dom(),
{
    assert(after_forward(m, room, bytes).dom() =~= m.dom());
}

} // verus!
