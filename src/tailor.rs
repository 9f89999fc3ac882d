//! The registry of watch sessions: ids, and the handle that the caller keeps
//! for each running session (its stop channel and thread, say).

use std::collections::HashMap;
use vstd::prelude::*;

verus! {

broadcast use vstd::std_specs::hash::group_hash_axioms;

/// `x` is the greatest of `ids`.
pub open spec fn is_greatest(ids: Set<i32>, x: i32) -> bool {
    ids.contains(x) && forall|k: i32| ids.contains(k) ==> k <= x
}

/// The id that the next session gets: one more than the greatest id in use,
/// or 1 when none is.
pub open spec fn next_session_id(ids: Set<i32>) -> int {
    if exists|x: i32| is_greatest(ids, x) {
        (choose|x: i32| is_greatest(ids, x)) + 1
    } else {
        1
    }
}

/// A finite set of ids that is not empty has a greatest one.
proof fn lemma_greatest_exists(ids: Set<i32>)
    requires
        ids.finite(),
        ids.len() > 0,
    ensures
        exists|x: i32| is_greatest(ids, x),
    decreases ids.len(),
{
    let x = ids.choose();
    let rest = ids.remove(x);
    if rest.len() == 0 {
        assert forall|k: i32| ids.contains(k) implies k <= x by {
            if k != x {
                assert(rest.contains(k));
            }
        }
        assert(is_greatest(ids, x));
    } else {
        lemma_greatest_exists(rest);
        let m = choose|m: i32| is_greatest(rest, m);
        if m < x {
            assert forall|k: i32| ids.contains(k) implies k <= x by {
                if k != x {
                    assert(rest.contains(k));
                }
            }
            assert(is_greatest(ids, x));
        } else {
            assert forall|k: i32| ids.contains(k) implies k <= m by {
                if k != x {
                    assert(rest.contains(k));
                }
            }
            assert(is_greatest(ids, m));
        }
    }
}

/// The sessions that run now, by id.
pub struct Tailor<H> {
    clients: HashMap<i32, H>,
}

impl<H> Tailor<H> {
    /// The registered sessions: id to handle.
    pub closed spec fn sessions(&self) -> Map<i32, H> {
        self.clients@
    }

    /// Every id is at least 1, and there are finitely many.
    pub open spec fn wf(&self) -> bool {
        &&& self.sessions().dom().finite()
        &&& forall|k: i32| #[trigger] self.sessions().contains_key(k) ==> k >= 1
    }

    /// No session yet.
    pub fn new() -> (r: Tailor<H>)
        ensures
            r.wf(),
            r.sessions() == Map::<i32, H>::empty(),
    {
        Tailor { clients: HashMap::new() }
    }

    /// Registers a running session and gives its id: one more than the
    /// greatest id in use, or 1 when none is. When the greatest id in use is
    /// `i32::MAX` no id is left above it, and the handle comes back instead.
    pub fn register(&mut self, handle: H) -> (r: Result<i32, H>)
        requires
            old(self).wf(),
        ensures
            final(self).wf(),
            match r {
                Ok(id) => {
                    &&& id == next_session_id(old(self).sessions().dom())
                    &&& final(self).sessions() == old(self).sessions().insert(id, handle)
                },
                Err(h) => {
                    &&& next_session_id(old(self).sessions().dom()) > i32::MAX
                    &&& h == handle
                    &&& final(self).sessions() == old(self).sessions()
                },
            },
    {
        let ghost ids = self.clients@.dom();
        let mut max_id: i32 = 0;
        for k in iter: self.clients.keys()
            invariant
                ids == self.clients@.dom(),
                max_id == 0 || ids.contains(max_id),
                max_id >= 0,
                forall|k: i32|
                    #[trigger] ids.contains(k) ==> k <= max_id || exists|i: int|
                        iter.index() <= i < iter.seq().len() && *iter.seq()[i] == k,
        {
            if *k > max_id {
                max_id = *k;
            }
        }
        proof {
            if max_id == 0 {
                assert(!(exists|x: i32| is_greatest(ids, x)));
            } else {
                assert(is_greatest(ids, max_id));
            }
        }
        if max_id == i32::MAX {
            return Err(handle);
        }
        let id = max_id + 1;
        self.clients.insert(id, handle);
        Ok(id)
    }

    /// Whether a session with this id is registered.
    pub fn is_registered(&self, id: i32) -> (r: bool)
        ensures
            r == self.sessions().contains_key(id),
    {
        self.clients.contains_key(&id)
    }

    /// Number of registered sessions.
    pub fn len(&self) -> (r: usize)
        ensures
            r == self.sessions().len(),
    {
        self.clients.len()
    }

    /// Removes the session `id` and gives back its handle, for the caller to
    /// signal it; nothing happens for an id that is not registered.
    pub fn stop(&mut self, id: i32) -> (r: Option<H>)
        requires
            old(self).wf(),
        ensures
            final(self).wf(),
            final(self).sessions() == old(self).sessions().remove(id),
            r == (if old(self).sessions().contains_key(id) {
                Some(old(self).sessions()[id])
            } else {
                None::<H>
            }),
    {
        let r = self.clients.remove(&id);
        proof {
            assert(self.clients@ =~= old(self).clients@.remove(id));
        }
        r
    }

    /// Removes every session and gives back their handles, for the caller to
    /// signal each and wait for it.
    pub fn stop_all(&mut self) -> (r: Vec<H>)
        requires
            old(self).wf(),
        ensures
            final(self).wf(),
            final(self).sessions() == Map::<i32, H>::empty(),
            exists|ids: Seq<i32>|
                {
                    &&& ids.no_duplicates()
                    &&& ids.to_set() == old(self).sessions().dom()
                    &&& r@ == ids.map_values(|k: i32| old(self).sessions()[k])
                },
    {
        let ghost old_map = self.clients@;
        let ghost ids = self.clients@.dom();
        let mut keys: Vec<i32> = Vec::new();
        for k in iter: self.clients.keys()
            invariant
                ids == self.clients@.dom(),
                keys@.len() == iter.index(),
                forall|i: int| 0 <= i < iter.index() ==> keys@[i] == *iter.seq()[i],
                iter.seq().no_duplicates(),
                forall|k: i32|
                    #[trigger] ids.contains(k) ==> keys@.contains(k) || exists|i: int|
                        iter.index() <= i < iter.seq().len() && *iter.seq()[i] == k,
                forall|i: int| 0 <= i < keys@.len() ==> ids.contains(#[trigger] keys@[i]),
                keys@.no_duplicates(),
        {
            let ghost before = keys@;
            keys.push(*k);
            proof {
                assert forall|x: i32| before.contains(x) implies keys@.contains(x) by {
                    let j = choose|j: int| 0 <= j < before.len() && before[j] == x;
                    assert(keys@[j] == x);
                }
                assert(keys@[before.len() as int] == *k);
            }
        }
        let mut out: Vec<H> = Vec::new();
        let mut i: usize = 0;
        while i < keys.len()
            invariant
                i <= keys@.len(),
                keys@.no_duplicates(),
                keys@.to_set() == ids,
                ids == old_map.dom(),
                self.clients@ == old_map.remove_keys(keys@.subrange(0, i as int).to_set()),
                out@ == keys@.subrange(0, i as int).map_values(|k: i32| old_map[k]),
            decreases keys@.len() - i,
        {
            let k = keys[i];
            assert(!keys@.subrange(0, i as int).contains(k));
            let h = self.clients.remove(&k);
            match h {
                Some(h) => {
                    out.push(h);
                },
                None => {
                    assert(false);
                },
            }
            assert(keys@.subrange(0, i + 1) =~= keys@.subrange(0, i as int).push(k));
            proof {
                keys@.subrange(0, i as int).lemma_push_to_set_commute(k);
            }
            assert(self.clients@ =~= old_map.remove_keys(keys@.subrange(0, i + 1).to_set()));
            assert(out@ =~= keys@.subrange(0, i + 1).map_values(|k: i32| old_map[k]));
            i = i + 1;
        }
        assert(keys@.subrange(0, keys@.len() as int) =~= keys@);
        assert(self.clients@ =~= Map::<i32, H>::empty());
        out
    }
}

/// An id given to a new session is none of the ids in use, so ids stay
/// pairwise distinct among the sessions registered at any time.
pub proof fn lemma_new_id_unused(ids: Set<i32>)
    requires
        ids.finite(),
        forall|k: i32| #[trigger] ids.contains(k) ==> k >= 1,
    ensures
        next_session_id(ids) >= 1,
        forall|k: i32| #[trigger] ids.contains(k) ==> k < next_session_id(ids),
        forall|x: i32| is_greatest(ids, x) ==> next_session_id(ids) == x + 1,
{
    assert forall|x: i32| is_greatest(ids, x) implies next_session_id(ids) == x + 1 by {
        let y = choose|y: i32| is_greatest(ids, y);
        assert(y <= x && x <= y);
    }
    if ids.len() > 0 {
        lemma_greatest_exists(ids);
    } else {
        assert(ids =~= Set::<i32>::empty());
    }
}

/// Stopping a session twice does what stopping it once does, and stopping an
/// id that is not registered changes nothing.
pub proof fn lemma_stop_idempotent<H>(sessions: Map<i32, H>, id: i32)
    ensures
        sessions.remove(id).remove(id) == sessions.remove(id),
        !sessions.contains_key(id) ==> sessions.remove(id) == sessions,
        !sessions.remove(id).contains_key(id),
{
    assert(sessions.remove(id).remove(id) =~= sessions.remove(id));
    if !sessions.contains_key(id) {
        assert(sessions.remove(id) =~= sessions);
    }
}

} // verus!
