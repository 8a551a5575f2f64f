//! The registry of refresh threads still running, so that the interpreter's
//! exit can stop them: each thread is registered under a fresh id, taken
//! out when it is told to stop, and all are taken at exit.

use vstd::prelude::*;

verus! {

/// The running threads, each a `T` under its id, in the order registered.
#[derive(Debug)]
pub struct WorkerRegistry<T> {
    workers: Vec<(u64, T)>,
    next_id: u64,
}

impl<T> WorkerRegistry<T> {
    /// The ids of the registered threads, in order.
    pub closed spec fn ids(&self) -> Seq<u64> {
        self.workers@.map_values(|w: (u64, T)| w.0)
    }

    /// The registered threads, in order.
    pub closed spec fn entries(&self) -> Seq<(u64, T)> {
        self.workers@
    }

    /// The id the next thread gets.
    pub closed spec fn next(&self) -> u64 {
        self.next_id
    }

    /// Every id is below the next one, and no two threads share an id.
    pub open spec fn wf(&self) -> bool {
        &&& forall|i: int| 0 <= i < self.entries().len() ==> (#[trigger] self.entries()[i]).0 < self.next()
        &&& forall|i: int, j: int| 0 <= i < j < self.entries().len()
            ==> (#[trigger] self.entries()[i]).0 != (#[trigger] self.entries()[j]).0
    }

    /// Whether a thread is registered under `id`.
    pub open spec fn registered(&self, id: u64) -> bool {
        exists|i: int| 0 <= i < self.entries().len() && (#[trigger] self.entries()[i]).0 == id
    }

    /// No thread registered; the first gets id 1.
    pub fn new() -> (r: WorkerRegistry<T>)
        ensures
            r.wf(),
            r.entries().len() == 0,
            r.next() == 1,
    {
        WorkerRegistry { workers: Vec::new(), next_id: 1 }
    }

    /// Register `worker` under the next id, returned.
    pub fn start(&mut self, worker: T) -> (id: u64)
        requires
            old(self).wf(),
            old(self).next() < u64::MAX,
        ensures
            final(self).wf(),
            id == old(self).next(),
            final(self).next() == id + 1,
            final(self).entries() == old(self).entries().push((id, worker)),
    {
        let id = self.next_id;
        self.workers.push((id, worker));
        self.next_id = id + 1;
        proof {
            assert forall|i: int, j: int| 0 <= i < j < self.entries().len()
                implies (#[trigger] self.entries()[i]).0 != (#[trigger] self.entries()[j]).0 by {
                if j == self.entries().len() - 1 {
                    assert(self.entries()[i] == old(self).entries()[i]);
                } else {
                    assert(self.entries()[i] == old(self).entries()[i]);
                    assert(self.entries()[j] == old(self).entries()[j]);
                }
            }
            assert forall|i: int| 0 <= i < self.entries().len() implies (#[trigger] self.entries()[i]).0 < self.next() by {
                if i < old(self).entries().len() {
                    assert(self.entries()[i] == old(self).entries()[i]);
                }
            }
        }
        id
    }

    /// Take out the thread registered under `id` (to be told to stop), if
    /// it is still registered.
    pub fn take(&mut self, id: u64) -> (r: Option<T>)
        requires
            old(self).wf(),
        ensures
            final(self).wf(),
            final(self).next() == old(self).next(),
            match r {
                None => final(self).entries() == old(self).entries()
                    && forall|i: int| 0 <= i < old(self).entries().len() ==> (#[trigger] old(self).entries()[i]).0 != id,
                Some(w) => exists|i: int| 0 <= i < old(self).entries().len()
                    && #[trigger] old(self).entries()[i] == (id, w)
                    && final(self).entries() == old(self).entries().remove(i),
            },
    {
        let mut i: usize = 0;
        while i < self.workers.len()
            invariant
                i <= self.workers@.len(),
                self.entries() == old(self).entries(),
                self.next() == old(self).next(),
                old(self).wf(),
                forall|j: int| 0 <= j < i ==> (#[trigger] self.workers@[j]).0 != id,
            decreases self.workers@.len() - i,
        {
            if self.workers[i].0 == id {
                let (_, w) = self.workers.remove(i);
                proof {
                    let e = self.entries();
                    assert forall|a: int, b: int| 0 <= a < b < e.len()
                        implies (#[trigger] e[a]).0 != (#[trigger] e[b]).0 by {
                        let oa = if a < i { a } else { a + 1 };
                        let ob = if b < i { b } else { b + 1 };
                        assert(e[a] == old(self).entries()[oa]);
                        assert(e[b] == old(self).entries()[ob]);
                    }
                    assert forall|a: int| 0 <= a < e.len() implies (#[trigger] e[a]).0 < self.next() by {
                        let oa = if a < i { a } else { a + 1 };
                        assert(e[a] == old(self).entries()[oa]);
                    }
                }
                return Some(w);
            }
            i = i + 1;
        }
        None
    }

    /// Put back a thread told to stop that cannot be waited for now, for
    /// the exit to wait for: it was taken out under `id`, so the id is below
    /// the next one and no longer registered.
    pub fn put_back(&mut self, id: u64, worker: T)
        requires
            old(self).wf(),
            id < old(self).next(),
            !old(self).registered(id),
        ensures
            final(self).wf(),
            final(self).entries() == old(self).entries().push((id, worker)),
            final(self).next() == old(self).next(),
    {
        self.workers.push((id, worker));
        proof {
            assert forall|i: int, j: int| 0 <= i < j < self.entries().len()
                implies (#[trigger] self.entries()[i]).0 != (#[trigger] self.entries()[j]).0 by {
                assert(self.entries()[i] == old(self).entries().push((id, worker))[i]);
                if j == self.entries().len() - 1 {
                    assert(old(self).entries()[i].0 != id);
                } else {
                    assert(self.entries()[j] == old(self).entries()[j]);
                }
            }
            assert forall|i: int| 0 <= i < self.entries().len() implies (#[trigger] self.entries()[i]).0 < self.next() by {
                if i < old(self).entries().len() {
                    assert(self.entries()[i] == old(self).entries()[i]);
                }
            }
        }
    }

    /// The id the next thread gets.
    pub fn next_id(&self) -> (n: u64)
        ensures
            n == self.next(),
    {
        self.next_id
    }

    /// Whether a thread is registered under `id`.
    pub fn contains(&self, id: u64) -> (b: bool)
        ensures
            b == self.registered(id),
    {
        let mut i: usize = 0;
        while i < self.workers.len()
            invariant
                i <= self.workers@.len(),
                forall|j: int| 0 <= j < i ==> (#[trigger] self.entries()[j]).0 != id,
            decreases self.workers@.len() - i,
        {
            if self.workers[i].0 == id {
                assert(self.entries()[i as int].0 == id);
                return true;
            }
            i = i + 1;
        }
        false
    }

    /// At exit: every registered thread, in order; none is left.
    pub fn drain(&mut self) -> (all: Vec<(u64, T)>)
        ensures
            final(self).wf(),
            all@ == old(self).entries(),
            final(self).entries().len() == 0,
            final(self).next() == old(self).next(),
    {
        let mut all: Vec<(u64, T)> = Vec::new();
        std::mem::swap(&mut all, &mut self.workers);
        all
    }

    /// How many threads are registered.
    pub fn len(&self) -> (n: usize)
        ensures
            n == self.entries().len(),
    {
        self.workers.len()
    }
}

/// A thread taken out is no longer registered: in a well-formed registry
/// an id names at most one thread.
pub proof fn law_ids_name_one_thread<T>(r: WorkerRegistry<T>, i: int, j: int)
    requires
        r.wf(),
        0 <= i < r.entries().len(),
        0 <= j < r.entries().len(),
        r.entries()[i].0 == r.entries()[j].0,
    ensures
        i == j,
{
    if i < j {
        assert(r.entries()[i].0 != r.entries()[j].0);
    } else if j < i {
        assert(r.entries()[j].0 != r.entries()[i].0);
    }
}

} // verus!
