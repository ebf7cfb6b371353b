//! The room registry: the ordered collection of room sessions, the
//! exclusive-focus rule (at most one session is active), and the
//! join-or-focus operation keyed by the derived rendezvous URL.

use vstd::prelude::*;
use crate::room::Room;
use crate::room::RoomV;
use crate::room::room_wf;
use crate::room::url_of;
use crate::room::local_user;
use crate::trusted::encoded;

verus! {

/// The rooms with the focus moved to `idx`: every session keeps its state,
/// only the active flags change.
pub open spec fn focused(rooms: Seq<RoomV>, idx: int) -> Seq<RoomV> {
    Seq::new(rooms.len(), |i: int| RoomV { active: i == idx, ..rooms[i] })
}

/// The rooms with every focus withdrawn.
pub open spec fn all_inactive(rooms: Seq<RoomV>) -> Seq<RoomV> {
    Seq::new(rooms.len(), |i: int| RoomV { active: false, ..rooms[i] })
}

/// Whether some session already owns this rendezvous URL — the sole
/// identity test for rooms.
pub open spec fn has_url(rooms: Seq<RoomV>, url: Seq<char>) -> bool {
    exists|i: int| 0 <= i < rooms.len() && (#[trigger] rooms[i]).url == url
}

/// The exclusive-focus rule: no two sessions are active at once.
pub open spec fn at_most_one_active(rooms: Seq<RoomV>) -> bool {
    forall|i: int, j: int|
        0 <= i < j < rooms.len() ==> !((#[trigger] rooms[i]).active && (#[trigger] rooms[j]).active)
}

/// The ordered collection of room sessions.
pub struct Registry {
    pub rooms: Vec<Room>,
}

impl Registry {
    /// The registry's mathematical model: the sequence of room models.
    pub open spec fn rooms_v(&self) -> Seq<RoomV> {
        self.rooms.deep_view()
    }

    /// Registry invariant: every session is well formed, rendezvous URLs are
    /// pairwise distinct (a room exists at most once), and at most one
    /// session is active.
    pub open spec fn wf(&self) -> bool {
        &&& forall|i: int|
            0 <= i < self.rooms_v().len() ==> room_wf(#[trigger] self.rooms_v()[i])
        &&& forall|i: int, j: int|
            0 <= i < j < self.rooms_v().len() ==> (#[trigger] self.rooms_v()[i]).url != (
            #[trigger] self.rooms_v()[j]).url
        &&& at_most_one_active(self.rooms_v())
    }

    /// An empty registry: no sessions, trivially well formed.
    pub fn new() -> (r: Registry)
        ensures
            r.wf(),
            r.rooms_v().len() == 0,
    {
        let r = Registry { rooms: Vec::new() };
        proof {
            assert(r.rooms_v() =~= Seq::<RoomV>::empty());
        }
        r
    }

    /// Marks the session at `index` active and all others inactive. Nothing
    /// but the focus flags changes; in particular a session's transport
    /// state is unaffected by focus.
    pub fn focus(&mut self, index: usize)
        requires
            old(self).wf(),
            index < old(self).rooms_v().len(),
        ensures
            final(self).wf(),
            final(self).rooms_v() == focused(old(self).rooms_v(), index as int),
    {
        let n = self.rooms.len();
        let mut i: usize = 0;
        #[verifier::loop_isolation(false)]
        while i < n
            invariant
                i <= n,
                self.rooms_v().len() == n,
                forall|j: int|
                    0 <= j < i ==> #[trigger] self.rooms_v()[j] == focused(
                        old(self).rooms_v(),
                        index as int,
                    )[j],
                forall|j: int|
                    i <= j < n ==> #[trigger] self.rooms_v()[j] == old(self).rooms_v()[j],
            decreases n - i,
        {
            let ghost pre = self.rooms_v();
            self.rooms[i].is_window_open = i == index;
            proof {
                let rv = self.rooms_v();
                assert(rv.len() == n);
                assert(self.rooms@[i as int].view().active == (i == index));
                assert(rv[i as int] == self.rooms@[i as int].view());
                assert(rv[i as int].active == (i == index));
                assert(rv[i as int].url == pre[i as int].url);
                assert(pre[i as int] == old(self).rooms_v()[i as int]);
                assert(forall|j: int| 0 <= j < n && j != i ==> #[trigger] rv[j] == pre[j]);
                assert(rv[i as int] =~~= focused(old(self).rooms_v(), index as int)[i as int]);
            }
            i += 1;
        }
        proof {
            assert(self.rooms_v() =~~= focused(old(self).rooms_v(), index as int));
        }
    }

    /// Join-or-focus, keyed by the derived URL. An empty name is a no-op
    /// and yields no session. Otherwise: if a session with the same URL
    /// already exists, it is focused (no new session, no new transport);
    /// else a fresh session is appended and focused. Either way, exactly
    /// one session — the returned one — is active afterwards.
    #[verifier::rlimit(50)]
    #[verifier::spinoff_prover]
    pub fn join_or_focus(&mut self, raw_name: &str) -> (r: Option<usize>)
        requires
            old(self).wf(),
        ensures
            final(self).wf(),
            (raw_name@.len() == 0) <==> (r is None),
            r is None ==> final(self).rooms_v() == old(self).rooms_v(),
            r matches Some(idx) ==> ({
                let url = url_of(raw_name@);
                let rs0 = old(self).rooms_v();
                let rs1 = final(self).rooms_v();
                &&& (idx as int) < rs1.len()
                &&& rs1[idx as int].url == url
                &&& rs1[idx as int].active
                &&& forall|j: int|
                    0 <= j < rs1.len() && j != idx as int ==> !((#[trigger] rs1[j]).active)
                &&& has_url(rs1, url)
                &&& (has_url(rs0, url) ==> (idx as int) < rs0.len() && rs0[idx as int].url == url
                    && rs1 == focused(rs0, idx as int))
                &&& (!has_url(rs0, url) ==> {
                    &&& idx as int == rs0.len()
                    &&& rs1.len() == rs0.len() + 1
                    &&& (forall|j: int|
                        0 <= j < rs0.len() ==> #[trigger] rs1[j] == all_inactive(rs0)[j])
                    &&& rs1[idx as int].name == encoded(raw_name@)
                    &&& rs1[idx as int].messages.len() == 0
                    &&& rs1[idx as int].members.len() == 1
                    &&& rs1[idx as int].members[0].id == local_user()
                })
            }),
    {
        if raw_name.is_empty() {
            return None;
        }
        let room = Room::new(raw_name);

        let n = self.rooms.len();
        let mut found: Option<usize> = None;
        let mut i: usize = 0;
        #[verifier::loop_isolation(false)]
        while i < n
            invariant
                i <= n,
                found is None ==> forall|j: int|
                    0 <= j < i ==> (#[trigger] self.rooms_v()[j]).url != room@.url,
                found matches Some(f) ==> f < n && self.rooms_v()[f as int].url == room@.url,
            decreases n - i,
        {
            if found.is_none() && self.rooms[i].room_url == room.room_url {
                found = Some(i);
            }
            i += 1;
        }

        match found {
            Some(idx) => {
                self.focus(idx);
                Some(idx)
            },
            None => {
                let idx = self.rooms.len();
                let mut k: usize = 0;
                #[verifier::loop_isolation(false)]
                while k < idx
                    invariant
                        k <= idx,
                        idx == self.rooms_v().len(),
                        forall|j: int|
                            0 <= j < k ==> #[trigger] self.rooms_v()[j] == all_inactive(
                                old(self).rooms_v(),
                            )[j],
                        forall|j: int|
                            k <= j < idx ==> #[trigger] self.rooms_v()[j] == old(
                                self,
                            ).rooms_v()[j],
                    decreases idx - k,
                {
                    let ghost pre = self.rooms_v();
                    self.rooms[k].is_window_open = false;
                    proof {
                        let rv = self.rooms_v();
                        assert(rv[k as int] == self.rooms@[k as int].view());
                        assert(!rv[k as int].active);
                        assert(pre[k as int] == old(self).rooms_v()[k as int]);
                        assert(forall|j: int| 0 <= j < idx && j != k ==> #[trigger] rv[j] == pre[j]);
                        assert(rv[k as int] =~~= all_inactive(old(self).rooms_v())[k as int]);
                    }
                    k += 1;
                }
                let ghost pre = self.rooms_v();
                self.rooms.push(room);
                proof {
                    let rs0 = old(self).rooms_v();
                    let rs1 = self.rooms_v();
                    assert(rs1.len() == rs0.len() + 1);
                    assert(forall|j: int| 0 <= j < idx ==> #[trigger] rs1[j] == pre[j]);
                    assert(rs1[idx as int] == room@);
                    assert(rs1 =~~= all_inactive(rs0).push(room@));
                    assert(forall|j: int|
                        0 <= j < rs0.len() ==> #[trigger] rs1[j] == all_inactive(rs0)[j]);
                    assert(rs1[idx as int] == room@);
                }
                Some(idx)
            },
        }
    }
}

} // verus!
