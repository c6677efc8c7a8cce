//! The app-server sessions the host keeps for the phone: one sender per
//! session id.
use vstd::prelude::*;
use vstd::map::*;
use crate::text::{chars_of, vec_eq};

verus! {

/// No two sessions share an id.
pub open spec fn ids_distinct(rooms: Seq<(String, u64)>) -> bool {
    forall|i: int, j: int|
        0 <= i < rooms.len() && 0 <= j < rooms.len() && i != j ==> #[trigger] rooms[i].0@
            != #[trigger] rooms[j].0@
}

pub open spec fn has_session(rooms: Seq<(String, u64)>, name: Seq<char>) -> bool {
    exists|i: int| 0 <= i < rooms.len() && #[trigger] rooms[i].0@ == name
}

/// The senders by session id.
pub open spec fn session_map(rooms: Seq<(String, u64)>) -> Map<Seq<char>, u64> {
    Map::new(
        |name: Seq<char>| has_session(rooms, name),
        |name: Seq<char>|
            rooms[choose|i: int| 0 <= i < rooms.len() && #[trigger] rooms[i].0@ == name].1,
    )
}

pub proof fn lemma_session_map_index(rooms: Seq<(String, u64)>, i: int)
    requires
        ids_distinct(rooms),
        0 <= i < rooms.len(),
    ensures
        session_map(rooms).dom().contains(rooms[i].0@),
        session_map(rooms)[rooms[i].0@] == rooms[i].1,
{
    let name = rooms[i].0@;
    assert(has_session(rooms, name));
    let k = choose|k: int| 0 <= k < rooms.len() && #[trigger] rooms[k].0@ == name;
    assert(k == i);
}

pub proof fn lemma_session_map_update(
    rooms: Seq<(String, u64)>,
    i: int,
    entry: (String, u64),
)
    requires
        ids_distinct(rooms),
        0 <= i < rooms.len(),
        entry.0@ == rooms[i].0@,
    ensures
        ids_distinct(rooms.update(i, entry)),
        session_map(rooms.update(i, entry)) == session_map(rooms).insert(entry.0@, entry.1),
{
    let new = rooms.update(i, entry);
    assert forall|p: int, q: int|
        0 <= p < new.len() && 0 <= q < new.len() && p != q implies #[trigger] new[p].0@
        != #[trigger] new[q].0@ by {
        assert(rooms[p].0@ != rooms[q].0@);
    }
    let m = session_map(rooms).insert(entry.0@, entry.1);
    assert forall|n: Seq<char>| #[trigger] session_map(new).dom().contains(n) <==> m.dom().contains(n) by {
        if has_session(new, n) {
            let k = choose|k: int| 0 <= k < new.len() && #[trigger] new[k].0@ == n;
            if k != i {
                assert(rooms[k].0@ == n);
            }
        }
        if has_session(rooms, n) {
            let k = choose|k: int| 0 <= k < rooms.len() && #[trigger] rooms[k].0@ == n;
            if k == i {
                assert(new[i].0@ == n);
            } else {
                assert(new[k].0@ == n);
            }
        }
        if n == entry.0@ {
            assert(new[i].0@ == n);
        }
    }
    assert forall|n: Seq<char>| #[trigger] session_map(new).dom().contains(n) implies session_map(new)[n]
        == m[n] by {
        let k = choose|k: int| 0 <= k < new.len() && #[trigger] new[k].0@ == n;
        lemma_session_map_index(new, k);
        if k != i {
            lemma_session_map_index(rooms, k);
        }
    }
    assert(session_map(new) =~= m);
}

pub proof fn lemma_session_map_push(rooms: Seq<(String, u64)>, entry: (String, u64))
    requires
        ids_distinct(rooms),
        !has_session(rooms, entry.0@),
    ensures
        ids_distinct(rooms.push(entry)),
        session_map(rooms.push(entry)) == session_map(rooms).insert(entry.0@, entry.1),
{
    let new = rooms.push(entry);
    let last = rooms.len() as int;
    assert forall|p: int, q: int|
        0 <= p < new.len() && 0 <= q < new.len() && p != q implies #[trigger] new[p].0@
        != #[trigger] new[q].0@ by {
        if p != last && q != last {
            assert(rooms[p].0@ != rooms[q].0@);
        } else if p == last {
            assert(new[q].0@ == rooms[q].0@);
        } else {
            assert(new[p].0@ == rooms[p].0@);
        }
    }
    let m = session_map(rooms).insert(entry.0@, entry.1);
    assert forall|n: Seq<char>| #[trigger] session_map(new).dom().contains(n) <==> m.dom().contains(n) by {
        if has_session(new, n) {
            let k = choose|k: int| 0 <= k < new.len() && #[trigger] new[k].0@ == n;
            if k != last {
                assert(rooms[k].0@ == n);
            }
        }
        if has_session(rooms, n) {
            let k = choose|k: int| 0 <= k < rooms.len() && #[trigger] rooms[k].0@ == n;
            assert(new[k].0@ == n);
        }
        if n == entry.0@ {
            assert(new[last].0@ == n);
        }
    }
    assert forall|n: Seq<char>| #[trigger] session_map(new).dom().contains(n) implies session_map(new)[n]
        == m[n] by {
        let k = choose|k: int| 0 <= k < new.len() && #[trigger] new[k].0@ == n;
        lemma_session_map_index(new, k);
        if k != last {
            lemma_session_map_index(rooms, k);
        }
    }
    assert(session_map(new) =~= m);
}

pub proof fn lemma_session_map_remove(rooms: Seq<(String, u64)>, i: int)
    requires
        ids_distinct(rooms),
        0 <= i < rooms.len(),
    ensures
        ids_distinct(rooms.remove(i)),
        session_map(rooms.remove(i)) == session_map(rooms).remove(rooms[i].0@),
{
    let new = rooms.remove(i);
    assert forall|p: int, q: int|
        0 <= p < new.len() && 0 <= q < new.len() && p != q implies #[trigger] new[p].0@
        != #[trigger] new[q].0@ by {
        let p2 = if p < i { p } else { p + 1 };
        let q2 = if q < i { q } else { q + 1 };
        assert(new[p] == rooms[p2]);
        assert(new[q] == rooms[q2]);
        assert(rooms[p2].0@ != rooms[q2].0@);
    }
    let m = session_map(rooms).remove(rooms[i].0@);
    assert forall|n: Seq<char>| #[trigger] session_map(new).dom().contains(n) <==> m.dom().contains(n) by {
        if has_session(new, n) {
            let k = choose|k: int| 0 <= k < new.len() && #[trigger] new[k].0@ == n;
            let k2 = if k < i { k } else { k + 1 };
            assert(new[k] == rooms[k2]);
            assert(rooms[k2].0@ == n);
            assert(k2 != i);
            assert(rooms[i].0@ != n);
        }
        if has_session(rooms, n) && n != rooms[i].0@ {
            let k = choose|k: int| 0 <= k < rooms.len() && #[trigger] rooms[k].0@ == n;
            assert(k != i);
            let k2 = if k < i { k } else { k - 1 };
            assert(new[k2] == rooms[k]);
            assert(new[k2].0@ == n);
        }
    }
    assert forall|n: Seq<char>| #[trigger] session_map(new).dom().contains(n) implies session_map(new)[n]
        == m[n] by {
        let k = choose|k: int| 0 <= k < new.len() && #[trigger] new[k].0@ == n;
        let k2 = if k < i { k } else { k + 1 };
        assert(new[k] == rooms[k2]);
        lemma_session_map_index(new, k);
        lemma_session_map_index(rooms, k2);
    }
    assert(session_map(new) =~= m);
}

/// The sender of a session, if it has one.
pub open spec fn lookup(m: Map<Seq<char>, u64>, id: Seq<char>) -> Option<u64> {
    if m.dom().contains(id) {
        Some(m[id])
    } else {
        None
    }
}

/// The sessions and the channel each one writes to the app server through.
#[derive(Debug)]
pub struct AppServerSessions {
    pub sessions: Vec<(String, u64)>,
}

impl AppServerSessions {
    pub open spec fn wf(&self) -> bool {
        ids_distinct(self.sessions@)
    }

    pub open spec fn view_map(&self) -> Map<Seq<char>, u64> {
        session_map(self.sessions@)
    }

    /// No session yet.
    pub fn new() -> (r: AppServerSessions)
        ensures
            r.wf(),
            r.view_map() == Map::<Seq<char>, u64>::empty(),
    {
        let r = AppServerSessions { sessions: Vec::new() };
        assert(r.view_map() =~= Map::<Seq<char>, u64>::empty());
        r
    }

    fn position(&self, id: &str) -> (r: Option<usize>)
        requires
            self.wf(),
        ensures
            match r {
                Some(i) => i < self.sessions@.len() && self.sessions@[i as int].0@ == id@,
                None => !has_session(self.sessions@, id@),
            },
    {
        let wanted = chars_of(id);
        let mut i: usize = 0;
        while i < self.sessions.len()
            invariant
                i <= self.sessions@.len(),
                wanted@ == id@,
                forall|k: int| 0 <= k < i ==> #[trigger] self.sessions@[k].0@ != id@,
            decreases self.sessions.len() - i,
        {
            if vec_eq(&chars_of(self.sessions[i].0.as_str()), &wanted) {
                return Some(i);
            }
            i = i + 1;
        }
        None
    }

    /// A session connects: the session `id` now writes
    /// through `sender`; the sender it had before, if any, is returned to be
    /// closed.
    pub fn connect(&mut self, id: String, sender: u64) -> (previous: Option<u64>)
        requires
            old(self).wf(),
        ensures
            final(self).wf(),
            previous == lookup(old(self).view_map(), id@),
            final(self).view_map() == old(self).view_map().insert(id@, sender),
    {
        match self.position(id.as_str()) {
            Some(i) => {
                proof {
                    lemma_session_map_index(self.sessions@, i as int);
                }
                let previous = self.sessions[i].1;
                let name = self.sessions[i].0.clone();
                let ghost entry = (name, sender);
                self.sessions.set(i, (name, sender));
                proof {
                    lemma_session_map_update(old(self).sessions@, i as int, entry);
                    assert(self.sessions@ == old(self).sessions@.update(i as int, entry));
                }
                Some(previous)
            },
            None => {
                let ghost entry = (id, sender);
                proof {
                    lemma_session_map_push(self.sessions@, entry);
                    assert(!session_map(self.sessions@).dom().contains(id@));
                }
                self.sessions.push((id, sender));
                None
            },
        }
    }

    /// Where a message of session `id` goes: the sender of that session.
    pub fn sender_of(&self, id: &str) -> (r: Option<u64>)
        requires
            self.wf(),
        ensures
            r == lookup(self.view_map(), id@),
    {
        match self.position(id) {
            Some(i) => {
                proof {
                    lemma_session_map_index(self.sessions@, i as int);
                }
                Some(self.sessions[i].1)
            },
            None => None,
        }
    }

    /// A session closes: forgets session `id` and
    /// returns its sender, to be closed.
    pub fn close(&mut self, id: &str) -> (r: Option<u64>)
        requires
            old(self).wf(),
        ensures
            final(self).wf(),
            r == lookup(old(self).view_map(), id@),
            final(self).view_map() == old(self).view_map().remove(id@),
    {
        match self.position(id) {
            Some(i) => {
                proof {
                    lemma_session_map_index(self.sessions@, i as int);
                    lemma_session_map_remove(self.sessions@, i as int);
                }
                let entry = self.sessions.remove(i);
                Some(entry.1)
            },
            None => {
                proof {
                    assert(session_map(self.sessions@).remove(id@) =~= session_map(self.sessions@));
                }
                None
            },
        }
    }

    /// The senders of all sessions, closed when the host disconnects.
    pub fn senders(&self) -> (r: Vec<u64>)
        ensures
            r@ == self.sessions@.map_values(|e: (String, u64)| e.1),
    {
        let mut out: Vec<u64> = Vec::new();
        let mut i: usize = 0;
        while i < self.sessions.len()
            invariant
                i <= self.sessions@.len(),
                out@ == self.sessions@.take(i as int).map_values(|e: (String, u64)| e.1),
            decreases self.sessions.len() - i,
        {
            out.push(self.sessions[i].1);
            i = i + 1;
            proof {
                assert(out@ =~= self.sessions@.take(i as int).map_values(|e: (String, u64)| e.1));
            }
        }
        proof {
            assert(self.sessions@.take(self.sessions@.len() as int) =~= self.sessions@);
        }
        out
    }
}

/// A connected session's messages go through the sender it connected with.
pub proof fn law_connected_session_is_reached(m: Map<Seq<char>, u64>, id: Seq<char>, sender: u64)
    ensures
        lookup(m.insert(id, sender), id) == Some(sender),
{
}

/// A closed session is gone, and the others stay.
pub proof fn law_close_forgets_only_that_session(m: Map<Seq<char>, u64>, id: Seq<char>, other: Seq<char>)
    requires
        other != id,
    ensures
        lookup(m.remove(id), id) is None,
        lookup(m.remove(id), other) == lookup(m, other),
{
}

} // verus!
