//! The session manager's verified core: player-id allocation and the
//! registry of admitted sessions.  Ids are handed out monotonically and are
//! never reused, even after their session closes.

use vstd::prelude::*;

verus! {

/// Registry of open sessions, keyed by player id.
pub struct SessionRegistry {
    /// The id the next connection will receive.
    pub next_player_id: u64,
    /// Ids of the sessions currently admitted.
    pub sessions: Vec<u64>,
}

/// Whether `id` is among the registered sessions.
pub open spec fn registered(ids: Seq<u64>, id: u64) -> bool {
    exists|i: int| 0 <= i < ids.len() && ids[i] == id
}

impl SessionRegistry {
    /// All registered ids were allocated before the counter, and none twice.
    pub open spec fn wf(&self) -> bool {
        &&& forall|i: int| 0 <= i < self.sessions@.len() ==> #[trigger] self.sessions@[i] < self.next_player_id
        &&& forall|i: int, j: int| 0 <= i < j < self.sessions@.len() ==> self.sessions@[i] != self.sessions@[j]
    }

    /// An empty registry whose first allocated id is 1.
    pub fn new() -> (r: SessionRegistry)
        ensures
            r.wf(),
            r.next_player_id == 1,
            r.sessions@.len() == 0,
    {
        SessionRegistry { next_player_id: 1, sessions: Vec::new() }
    }

    /// Hand out the next player id.  The id is fresh: it was never handed
    /// out before and is not registered.
    pub fn allocate_id(&mut self) -> (id: u64)
        requires
            old(self).wf(),
            old(self).next_player_id < u64::MAX,
        ensures
            final(self).wf(),
            id == old(self).next_player_id,
            final(self).next_player_id == id + 1,
            final(self).sessions@ == old(self).sessions@,
            !registered(final(self).sessions@, id),
    {
        let id = self.next_player_id;
        self.next_player_id = self.next_player_id + 1;
        id
    }

    /// Register a freshly allocated id.
    pub fn register(&mut self, id: u64)
        requires
            old(self).wf(),
            !registered(old(self).sessions@, id),
            id < old(self).next_player_id,
        ensures
            final(self).wf(),
            final(self).next_player_id == old(self).next_player_id,
            final(self).sessions@ == old(self).sessions@.push(id),
            registered(final(self).sessions@, id),
    {
        let ghost s0 = self.sessions@;
        self.sessions.push(id);
        proof {
            assert forall|i: int, j: int| 0 <= i < j < self.sessions@.len() implies
                self.sessions@[i] != self.sessions@[j] by {
                if j == self.sessions@.len() - 1 {
                    assert(self.sessions@[i] == s0[i]);
                }
            }
            assert(self.sessions@[self.sessions@.len() - 1] == id);
        }
    }

    /// Drop a session from the registry.  Idempotent: an unknown id changes
    /// nothing.
    pub fn unregister(&mut self, id: u64)
        requires
            old(self).wf(),
        ensures
            final(self).wf(),
            final(self).next_player_id == old(self).next_player_id,
            !registered(final(self).sessions@, id),
            forall|x: u64| x != id ==> (registered(final(self).sessions@, x) == registered(old(self).sessions@, x)),
    {
        let n = self.sessions.len();
        let mut i: usize = 0;
        while i < n
            invariant
                i <= n,
                n == self.sessions@.len(),
                self.wf(),
                self.sessions@ == old(self).sessions@,
                self.next_player_id == old(self).next_player_id,
                forall|k: int| 0 <= k < i ==> self.sessions@[k] != id,
            decreases n - i,
        {
            if self.sessions[i] == id {
                let ghost s0 = self.sessions@;
                self.sessions.remove(i);
                proof {
                    assert forall|k: int| 0 <= k < self.sessions@.len() implies
                        #[trigger] self.sessions@[k] != id by {
                        if k < i {
                            assert(self.sessions@[k] == s0[k]);
                        } else {
                            assert(self.sessions@[k] == s0[k + 1]);
                        }
                    }
                    assert forall|k1: int, k2: int| 0 <= k1 < k2 < self.sessions@.len() implies
                        self.sessions@[k1] != self.sessions@[k2] by {
                        let m1: int = if k1 < i { k1 } else { k1 + 1 };
                        let m2: int = if k2 < i { k2 } else { k2 + 1 };
                        assert(self.sessions@[k1] == s0[m1]);
                        assert(self.sessions@[k2] == s0[m2]);
                    }
                    assert forall|x: u64| x != id implies
                        (registered(self.sessions@, x) == registered(s0, x)) by {
                        if registered(s0, x) {
                            let w = choose|w: int| 0 <= w < s0.len() && s0[w] == x;
                            if w < i {
                                assert(self.sessions@[w] == x);
                            } else if w > i {
                                assert(self.sessions@[w - 1] == x);
                            }
                        }
                        if registered(self.sessions@, x) {
                            let w = choose|w: int| 0 <= w < self.sessions@.len() && self.sessions@[w] == x;
                            if w < i {
                                assert(s0[w] == x);
                            } else {
                                assert(s0[w + 1] == x);
                            }
                        }
                    }
                }
                return;
            }
            i = i + 1;
        }
    }

    /// Whether a session id is currently registered.
    pub fn is_registered(&self, id: u64) -> (r: bool)
        ensures
            r == registered(self.sessions@, id),
    {
        let n = self.sessions.len();
        let mut i: usize = 0;
        while i < n
            invariant
                i <= n,
                n == self.sessions@.len(),
                forall|k: int| 0 <= k < i ==> self.sessions@[k] != id,
            decreases n - i,
        {
            if self.sessions[i] == id {
                return true;
            }
            i = i + 1;
        }
        false
    }
}

} // verus!
