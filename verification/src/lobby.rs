//! The connection registry: the single owner of the session table mapping a
//! user identifier to their one live outbound connection handle.
//!
//! Handles are opaque numbers chosen by the transport layer; the registry
//! decides which handles a payload goes to, and the transport performs the
//! delivery. All mutations go through one `&mut` owner, so check-then-act
//! sequences such as `disconnect`'s identity test are atomic with respect to
//! concurrent `connect`s by construction.

use vstd::prelude::*;

verus! {

/// One live session: a user and the handle of their current connection.
#[derive(Clone, Copy, Debug, PartialEq, Eq, Structural)]
pub struct Session {
    pub user_id: i32,
    pub handle: u64,
}

/// Predicate keeping the sessions of users outside an exclusion list.
pub open spec fn not_excluded_pred(ids: Seq<i32>) -> spec_fn(Session) -> bool {
    |s: Session| !ids.contains(s.user_id)
}

/// Mapper from a session to its handle; named so that every contract maps
/// with the same function value.
pub open spec fn handle_of_session() -> spec_fn(Session) -> u64 {
    |s: Session| s.handle
}

pub struct Lobby {
    pub sessions: Vec<Session>,
}

impl Lobby {
    /// Each user is registered at most once.
    pub open spec fn inv(self) -> bool {
        forall|k: int, l: int|
            0 <= k < l < self.sessions@.len() ==> (#[trigger] self.sessions@[k]).user_id
                != (#[trigger] self.sessions@[l]).user_id
    }

    pub open spec fn has_session(self, uid: i32) -> bool {
        exists|k: int|
            0 <= k < self.sessions@.len() && (#[trigger] self.sessions@[k]).user_id == uid
    }

    pub open spec fn session_index(self, uid: i32) -> int {
        choose|k: int|
            0 <= k < self.sessions@.len() && (#[trigger] self.sessions@[k]).user_id == uid
    }

    /// The handle registered for `uid` (meaningful under `has_session`).
    pub open spec fn handle_of(self, uid: i32) -> u64 {
        self.sessions@[self.session_index(uid)].handle
    }

    /// With unique users, `session_index` agrees with any index whose entry
    /// carries the user.
    pub proof fn lemma_session_index(self, k: int)
        requires
            self.inv(),
            0 <= k < self.sessions@.len(),
        ensures
            self.has_session(self.sessions@[k].user_id),
            self.session_index(self.sessions@[k].user_id) == k,
            self.handle_of(self.sessions@[k].user_id) == self.sessions@[k].handle,
    {
        let uid = self.sessions@[k].user_id;
        assert(self.has_session(uid));
        let l = self.session_index(uid);
        assert(0 <= l < self.sessions@.len() && self.sessions@[l].user_id == uid);
        if k < l {
            assert(self.sessions@[k].user_id != self.sessions@[l].user_id);
        } else if l < k {
            assert(self.sessions@[l].user_id != self.sessions@[k].user_id);
        }
    }

    pub fn new() -> (r: Lobby)
        ensures
            r.inv(),
            r.sessions@.len() == 0,
    {
        Lobby { sessions: Vec::new() }
    }

    fn find_session_index(&self, uid: i32) -> (r: Option<usize>)
        ensures
            match r {
                Some(k) => 0 <= k < self.sessions@.len() && self.sessions@[k as int].user_id
                    == uid,
                None => !self.has_session(uid),
            },
            r is Some <==> self.has_session(uid),
    {
        let n = self.sessions.len();
        let mut k: usize = 0;
        while k < n
            invariant
                0 <= k <= n,
                n == self.sessions@.len(),
                forall|j: int| 0 <= j < k ==> (#[trigger] self.sessions@[j]).user_id != uid,
            decreases n - k,
        {
            if self.sessions[k].user_id == uid {
                return Some(k);
            }
            k = k + 1;
        }
        None
    }

    /// Registers (or replaces: last connection wins) the live handle of a
    /// user. A superseded handle is simply forgotten; its connection is not
    /// told at this layer.
    pub fn connect(&mut self, user_id: i32, handle: u64)
        requires
            old(self).inv(),
        ensures
            final(self).inv(),
            final(self).has_session(user_id),
            final(self).handle_of(user_id) == handle,
            old(self).has_session(user_id) ==> final(self).sessions@ == old(
                self,
            ).sessions@.update(
                old(self).session_index(user_id),
                Session { user_id, handle },
            ),
            !old(self).has_session(user_id) ==> final(self).sessions@ == old(
                self,
            ).sessions@.push(Session { user_id, handle }),
            forall|u: i32|
                u != user_id ==> (final(self).has_session(u) <==> old(self).has_session(u)),
            forall|u: i32|
                u != user_id && old(self).has_session(u) ==> final(self).handle_of(u) == old(
                    self,
                ).handle_of(u),
    {
        let entry = Session { user_id, handle };
        match self.find_session_index(user_id) {
            Some(k) => {
                proof {
                    old(self).lemma_session_index(k as int);
                }
                self.sessions[k] = entry;
                proof {
                    self.lemma_session_index(k as int);
                    assert forall|u: i32|
                        u != user_id && old(self).has_session(u) implies self.has_session(u)
                        && self.handle_of(u) == old(self).handle_of(u) by {
                        let l = old(self).session_index(u);
                        assert(0 <= l < old(self).sessions@.len() && old(
                            self,
                        ).sessions@[l].user_id == u);
                        assert(l != k);
                        assert(self.sessions@[l].user_id == u);
                        self.lemma_session_index(l);
                        old(self).lemma_session_index(l);
                    }
                    assert forall|u: i32|
                        u != user_id && self.has_session(u) implies old(self).has_session(u) by {
                        let l = self.session_index(u);
                        assert(0 <= l < self.sessions@.len() && self.sessions@[l].user_id == u);
                        assert(l != k);
                        assert(old(self).sessions@[l].user_id == u);
                        old(self).lemma_session_index(l);
                    }
                }
            },
            None => {
                self.sessions.push(entry);
                proof {
                    self.lemma_session_index(self.sessions@.len() - 1);
                    assert forall|u: i32|
                        u != user_id && old(self).has_session(u) implies self.has_session(u)
                        && self.handle_of(u) == old(self).handle_of(u) by {
                        let l = old(self).session_index(u);
                        assert(0 <= l < old(self).sessions@.len() && old(
                            self,
                        ).sessions@[l].user_id == u);
                        assert(self.sessions@[l].user_id == u);
                        self.lemma_session_index(l);
                        old(self).lemma_session_index(l);
                    }
                    assert forall|u: i32|
                        u != user_id && self.has_session(u) implies old(self).has_session(u) by {
                        let l = self.session_index(u);
                        assert(0 <= l < self.sessions@.len() && self.sessions@[l].user_id == u);
                        assert(l != self.sessions@.len() - 1);
                        assert(old(self).sessions@[l].user_id == u);
                        old(self).lemma_session_index(l);
                    }
                }
            },
        }
    }

    /// Removes the mapping of `user_id` only when the registered handle is
    /// exactly the one given; a stale disconnect of a superseded connection
    /// is a no-op and cannot evict a newer registration.
    pub fn disconnect(&mut self, user_id: i32, handle: u64) -> (removed: bool)
        requires
            old(self).inv(),
        ensures
            final(self).inv(),
            removed <==> (old(self).has_session(user_id) && old(self).handle_of(user_id)
                == handle),
            !removed ==> *final(self) == *old(self),
            removed ==> final(self).sessions@ == old(self).sessions@.remove(
                old(self).session_index(user_id),
            ),
            removed ==> !final(self).has_session(user_id),
    {
        match self.find_session_index(user_id) {
            Some(k) => {
                proof {
                    old(self).lemma_session_index(k as int);
                }
                if self.sessions[k].handle == handle {
                    self.sessions.remove(k);
                    proof {
                        let os = old(self).sessions@;
                        let ss = self.sessions@;
                        assert(forall|m: int| 0 <= m < k ==> ss[m] == os[m]);
                        assert(forall|m: int| k <= m < ss.len() ==> ss[m] == os[m + 1]);
                        assert forall|m: int, m2: int| 0 <= m < m2 < ss.len() implies (
                        #[trigger] ss[m]).user_id != (#[trigger] ss[m2]).user_id by {
                            let om: int = if m < k { m } else { m + 1 };
                            let om2: int = if m2 < k { m2 } else { m2 + 1 };
                            assert(ss[m] == os[om] && ss[m2] == os[om2]);
                        }
                        if self.has_session(user_id) {
                            let l = self.session_index(user_id);
                            assert(0 <= l < ss.len() && ss[l].user_id == user_id);
                            let ol: int = if l < k { l } else { l + 1 };
                            assert(os[ol].user_id == user_id);
                            old(self).lemma_session_index(ol);
                        }
                    }
                    true
                } else {
                    false
                }
            },
            None => false,
        }
    }

    /// The handle to deliver a payload to `id_to`, if that user is online;
    /// an offline recipient is not an error.
    pub fn send_message(&self, id_to: &i32) -> (r: Option<u64>)
        requires
            self.inv(),
        ensures
            r is Some <==> self.has_session(*id_to),
            r matches Some(h) ==> h == self.handle_of(*id_to),
    {
        match self.find_session_index(*id_to) {
            Some(k) => {
                proof {
                    self.lemma_session_index(k as int);
                }
                Some(self.sessions[k].handle)
            },
            None => None,
        }
    }

    /// The handles to deliver a payload to each listed user, best-effort and
    /// independently: offline users are skipped, in list order.
    pub fn send_many_message(&self, ids: &Vec<i32>) -> (r: Vec<u64>)
        requires
            self.inv(),
        ensures
            r@ == ids@.filter(|u: i32| self.has_session(u)).map_values(
                |u: i32| self.handle_of(u),
            ),
    {
        let ghost keep = |u: i32| self.has_session(u);
        let ghost to_handle = |u: i32| self.handle_of(u);
        let n = ids.len();
        let mut r: Vec<u64> = Vec::new();
        let mut j: usize = 0;
        proof {
            reveal(Seq::filter);
            assert(ids@.take(0) =~= Seq::<i32>::empty());
            assert(ids@.take(0).filter(keep).map_values(to_handle) =~= Seq::<u64>::empty());
        }
        while j < n
            invariant
                0 <= j <= n,
                n == ids@.len(),
                self.inv(),
                keep == (|u: i32| self.has_session(u)),
                to_handle == (|u: i32| self.handle_of(u)),
                r@ == ids@.take(j as int).filter(keep).map_values(to_handle),
            decreases n - j,
        {
            proof {
                crate::counting::lemma_filter_take_step(ids@, keep, j as int);
                if keep(ids@[j as int]) {
                    crate::counting::lemma_map_values_push(
                        ids@.take(j as int).filter(keep),
                        to_handle,
                        ids@[j as int],
                    );
                }
            }
            match self.send_message(&ids[j]) {
                Some(h) => {
                    r.push(h);
                },
                None => {},
            }
            j = j + 1;
        }
        proof {
            crate::counting::lemma_take_full(ids@);
        }
        r
    }

    /// The handles of every registered user outside the exclusion list, in
    /// registration order.
    pub fn send_message_to_all_except(&self, ids_to_except: &Vec<i32>) -> (r: Vec<u64>)
        requires
            self.inv(),
        ensures
            r@ == self.sessions@.filter(not_excluded_pred(ids_to_except@)).map_values(
                handle_of_session(),
            ),
    {
        let ghost pred = not_excluded_pred(ids_to_except@);
        let n = self.sessions.len();
        let mut r: Vec<u64> = Vec::new();
        let mut k: usize = 0;
        proof {
            reveal(Seq::filter);
            assert(self.sessions@.take(0) =~= Seq::<Session>::empty());
            assert(self.sessions@.take(0).filter(pred).map_values(handle_of_session()) =~= Seq::<
                u64,
            >::empty());
        }
        while k < n
            invariant
                0 <= k <= n,
                n == self.sessions@.len(),
                pred == not_excluded_pred(ids_to_except@),
                r@ == self.sessions@.take(k as int).filter(pred).map_values(handle_of_session()),
            decreases n - k,
        {
            proof {
                crate::counting::lemma_filter_take_step(self.sessions@, pred, k as int);
                if pred(self.sessions@[k as int]) {
                    crate::counting::lemma_map_values_push(
                        self.sessions@.take(k as int).filter(pred),
                        handle_of_session(),
                        self.sessions@[k as int],
                    );
                }
            }
            let s = self.sessions[k];
            if !contains_id(ids_to_except, s.user_id) {
                r.push(s.handle);
            }
            k = k + 1;
        }
        proof {
            crate::counting::lemma_take_full(self.sessions@);
        }
        r
    }
}

/// Whether the list holds the identifier.
fn contains_id(ids: &Vec<i32>, x: i32) -> (r: bool)
    ensures
        r == ids@.contains(x),
{
    let n = ids.len();
    let mut j: usize = 0;
    while j < n
        invariant
            0 <= j <= n,
            n == ids@.len(),
            forall|m: int| 0 <= m < j ==> ids@[m] != x,
        decreases n - j,
    {
        if ids[j] == x {
            return true;
        }
        j = j + 1;
    }
    false
}

} // verus!
