//! The task registry: which download ids currently have a live fetch task.
//!
//! Registration is the sole gate preventing a second concurrent fetch for
//! the same id.  The registry is viewed as the set of registered ids; an id
//! is registered at most once.

use vstd::prelude::*;

use crate::errors::DownloadError;

verus! {

/// No element occurs twice.
pub open spec fn nodup(s: Seq<i32>) -> bool {
    forall|i: int, j: int| 0 <= i < j < s.len() ==> s[i] != s[j]
}

/// The set of download ids with a live fetch task.
pub struct Registry {
    ids: Vec<i32>,
}

impl View for Registry {
    type V = Set<i32>;

    /// The registered ids, as a set: registration has no order.
    closed spec fn view(&self) -> Set<i32> {
        self.ids@.to_set()
    }
}

impl Registry {
    /// Each id is held at most once.
    pub closed spec fn wf(self) -> bool {
        nodup(self.ids@)
    }

    /// An empty registry.
    pub fn new() -> (r: Registry)
        ensures
            r.wf(),
            r@ == Set::<i32>::empty(),
    {
        let r = Registry { ids: Vec::new() };
        proof {
            assert(r@ =~= Set::<i32>::empty());
        }
        r
    }

    /// Whether `id` currently has a live fetch task.
    pub fn is_running(&self, id: i32) -> (r: bool)
        ensures
            r == self@.contains(id),
    {
        let n = self.ids.len();
        let mut i: usize = 0;
        while i < n
            invariant
                n == self.ids@.len(),
                0 <= i <= n,
                forall|j: int| 0 <= j < i ==> self.ids@[j] != id,
            decreases n - i,
        {
            if self.ids[i] == id {
                return true;
            }
            i = i + 1;
        }
        proof {
            if self.ids@.contains(id) {
                let j = choose|j: int| 0 <= j < self.ids@.len() && self.ids@[j] == id;
                assert(self.ids@[j] != id);
            }
        }
        false
    }

    /// Registers `id`; `AlreadyRunning` exactly when it is registered, and
    /// then nothing changes.
    pub fn register(&mut self, id: i32) -> (r: Result<(), DownloadError>)
        requires
            old(self).wf(),
        ensures
            final(self).wf(),
            match r {
                Ok(()) => !old(self)@.contains(id) && final(self)@ == old(self)@.insert(id),
                Err(e) => e == DownloadError::AlreadyRunning && old(self)@.contains(id)
                    && final(self)@ == old(self)@,
            },
    {
        if self.is_running(id) {
            return Err(DownloadError::AlreadyRunning);
        }
        let ghost prev = self.ids@;
        self.ids.push(id);
        proof {
            assert forall|x: i32| self.ids@.contains(x) implies prev.contains(x) || x
                == id by {
                let j = choose|j: int| 0 <= j < self.ids@.len() && self.ids@[j] == x;
                if j < prev.len() {
                    assert(prev[j] == x);
                }
            }
            assert forall|x: i32| prev.contains(x) implies self.ids@.contains(x) by {
                let j = choose|j: int| 0 <= j < prev.len() && prev[j] == x;
                assert(self.ids@[j] == x);
            }
            assert(self.ids@[self.ids@.len() - 1] == id);
            assert(self@ =~= old(self)@.insert(id));
            assert forall|i: int, j: int|
                0 <= i < j < self.ids@.len() implies self.ids@[i] != self.ids@[j] by {
                if j == self.ids@.len() - 1 {
                    assert(prev[i] == self.ids@[i]);
                    assert(prev.contains(self.ids@[i]));
                }
            }
        }
        Ok(())
    }

    /// Removes `id` from the registry; `NotFound` exactly when it is not
    /// registered, and then nothing changes.  The caller signals the task's
    /// cancellation token after a successful removal.
    pub fn remove(&mut self, id: i32) -> (r: Result<(), DownloadError>)
        requires
            old(self).wf(),
        ensures
            final(self).wf(),
            !final(self)@.contains(id),
            match r {
                Ok(()) => old(self)@.contains(id) && final(self)@ == old(self)@.remove(id),
                Err(e) => e == DownloadError::NotFound && !old(self)@.contains(id)
                    && final(self)@ == old(self)@,
            },
    {
        let n = self.ids.len();
        let mut i: usize = 0;
        while i < n
            invariant
                self.wf(),
                self.ids@ == old(self).ids_seq(),
                n == self.ids@.len(),
                0 <= i <= n,
                forall|j: int| 0 <= j < i ==> self.ids@[j] != id,
            decreases n - i,
        {
            if self.ids[i] == id {
                let ghost prev = self.ids@;
                self.ids.remove(i);
                proof {
                    lemma_remove_one(prev, i as int);
                    assert(self@ =~= old(self)@.remove(id));
                }
                return Ok(());
            }
            i = i + 1;
        }
        proof {
            if self.ids@.contains(id) {
                let j = choose|j: int| 0 <= j < self.ids@.len() && self.ids@[j] == id;
                assert(self.ids@[j] != id);
            }
        }
        Err(DownloadError::NotFound)
    }

    /// The registered ids, exposed for contracts that relate the registry
    /// to the store.
    pub closed spec fn ids_seq(self) -> Seq<i32> {
        self.ids@
    }
}

/// Removing position `i` from a duplicate-free sequence removes exactly the
/// element at that position from the set of elements.
proof fn lemma_remove_one(s: Seq<i32>, i: int)
    requires
        nodup(s),
        0 <= i < s.len(),
    ensures
        nodup(s.remove(i)),
        s.remove(i).to_set() == s.to_set().remove(s[i]),
{
    let t = s.remove(i);
    assert forall|x: i32| t.contains(x) implies s.contains(x) && x != s[i] by {
        let j = choose|j: int| 0 <= j < t.len() && t[j] == x;
        if j < i {
            assert(s[j] == x);
        } else {
            assert(s[j + 1] == x);
        }
    }
    assert forall|x: i32| s.contains(x) && x != s[i] implies t.contains(x) by {
        let j = choose|j: int| 0 <= j < s.len() && s[j] == x;
        if j < i {
            assert(t[j] == x);
        } else {
            assert(t[j - 1] == x);
        }
    }
    assert(t.to_set() =~= s.to_set().remove(s[i]));
    assert forall|p: int, q: int| 0 <= p < q < t.len() implies t[p] != t[q] by {
        if q < i {
            assert(t[p] == s[p] && t[q] == s[q]);
        } else if p < i {
            assert(t[p] == s[p] && t[q] == s[q + 1]);
        } else {
            assert(t[p] == s[p + 1] && t[q] == s[q + 1]);
        }
    }
}

} // verus!
