//! Admission of batches to a bounded number of concurrent processing tasks.

use vstd::prelude::*;

verus! {

/// Why a batch was not admitted.
#[derive(Clone, Copy, Debug, PartialEq, Eq, Structural)]
pub enum AdmitError {
    /// Every slot is taken: wait for a task to finish.
    AtCapacity,
    /// Shutdown was requested: no batch is admitted any more.
    ShuttingDown,
    /// A task for a batch with this start version is running already.
    AlreadyRunning { start_version: u64 },
}

/// The running tasks, each named by its batch's version range, and the limit.
pub struct ConcurrentDispatcher {
    limit: usize,
    running: Vec<(u64, u64)>,
    shutting_down: bool,
}

fn find_batch(v: &Vec<(u64, u64)>, start_version: u64) -> (r: Option<usize>)
    ensures
        r matches Some(i) ==> i < v@.len() && v@[i as int].0 == start_version,
        r is None ==> forall|k: int| 0 <= k < v@.len() ==> #[trigger] v@[k].0 != start_version,
{
    let mut i: usize = 0;
    while i < v.len()
        invariant
            i <= v@.len(),
            forall|k: int| 0 <= k < i ==> #[trigger] v@[k].0 != start_version,
        decreases v@.len() - i,
    {
        if v[i].0 == start_version {
            return Some(i);
        }
        i = i + 1;
    }
    None
}

/// Some running task holds a batch that starts at `start_version`.
pub open spec fn start_is_running(running: Seq<(u64, u64)>, start_version: u64) -> bool {
    exists|k: int| 0 <= k < running.len() && #[trigger] running[k].0 == start_version
}

impl ConcurrentDispatcher {
    /// Largest number of tasks that run at once.
    pub closed spec fn spec_limit(&self) -> nat {
        self.limit as nat
    }

    /// Version ranges of the batches of the running tasks.
    pub closed spec fn spec_running(&self) -> Seq<(u64, u64)> {
        self.running@
    }

    /// Whether shutdown was requested.
    pub closed spec fn spec_shutting_down(&self) -> bool {
        self.shutting_down
    }

    /// No more tasks run than the limit, and no two running batches start
    /// at the same version.
    pub closed spec fn wf(&self) -> bool {
        &&& self.limit > 0
        &&& self.running@.len() <= self.limit
        &&& forall|i: int, j: int|
            0 <= i < self.running@.len() && 0 <= j < self.running@.len() && i != j
                ==> #[trigger] self.running@[i].0 != #[trigger] self.running@[j].0
    }

    /// The error `try_admit` gives for a batch starting at `start_version`, if any.
    pub open spec fn admit_error(&self, start_version: u64) -> Option<AdmitError> {
        if self.spec_shutting_down() {
            Some(AdmitError::ShuttingDown)
        } else if self.spec_running().len() >= self.spec_limit() {
            Some(AdmitError::AtCapacity)
        } else if start_is_running(self.spec_running(), start_version) {
            Some(AdmitError::AlreadyRunning { start_version })
        } else {
            None
        }
    }

    /// A dispatcher with no running task and `limit` slots.
    pub fn new(limit: usize) -> (d: Self)
        requires
            limit > 0,
        ensures
            d.wf(),
            d.spec_limit() == limit,
            d.spec_running().len() == 0,
            !d.spec_shutting_down(),
    {
        ConcurrentDispatcher { limit, running: Vec::new(), shutting_down: false }
    }

    /// Takes a slot for the batch `[start_version, end_version]`, if one is free.
    pub fn try_admit(&mut self, start_version: u64, end_version: u64) -> (r: Result<(), AdmitError>)
        requires
            old(self).wf(),
        ensures
            final(self).wf(),
            final(self).spec_limit() == old(self).spec_limit(),
            final(self).spec_shutting_down() == old(self).spec_shutting_down(),
            match old(self).admit_error(start_version) {
                Some(e) => r == Err::<(), AdmitError>(e) && *final(self) == *old(self),
                None => r is Ok && final(self).spec_running() == old(self).spec_running().push(
                    (start_version, end_version),
                ),
            },
    {
        if self.shutting_down {
            return Err(AdmitError::ShuttingDown);
        }
        if self.running.len() >= self.limit {
            return Err(AdmitError::AtCapacity);
        }
        match find_batch(&self.running, start_version) {
            Some(i) => {
                assert(self.running@[i as int].0 == start_version);
                return Err(AdmitError::AlreadyRunning { start_version });
            },
            None => {},
        }
        proof {
            let s = self.running@;
            let t = s.push((start_version, end_version));
            assert forall|a: int, b: int|
                0 <= a < t.len() && 0 <= b < t.len() && a != b implies #[trigger] t[a].0
                != #[trigger] t[b].0 by {
                if a < s.len() && b < s.len() {
                    assert(t[a] == s[a] && t[b] == s[b]);
                } else if a < s.len() {
                    assert(t[a] == s[a]);
                } else {
                    assert(t[b] == s[b]);
                }
            }
        }
        self.running.push((start_version, end_version));
        Ok(())
    }

    /// Frees the slot of the task for the batch `[start_version, end_version]`,
    /// whether it succeeded or failed. Returns whether such a task was running.
    pub fn complete(&mut self, start_version: u64, end_version: u64) -> (r: bool)
        requires
            old(self).wf(),
        ensures
            final(self).wf(),
            final(self).spec_limit() == old(self).spec_limit(),
            final(self).spec_shutting_down() == old(self).spec_shutting_down(),
            r == old(self).spec_running().contains((start_version, end_version)),
            r ==> exists|i: int|
                0 <= i < old(self).spec_running().len() && old(self).spec_running()[i] == (
                    start_version,
                    end_version,
                ) && final(self).spec_running() == old(self).spec_running().remove(i),
            !r ==> *final(self) == *old(self),
    {
        match find_batch(&self.running, start_version) {
            Some(i) => {
                if self.running[i].1 != end_version {
                    proof {
                        if self.running@.contains((start_version, end_version)) {
                            let k = choose|k: int|
                                0 <= k < self.running@.len() && self.running@[k] == (
                                    start_version,
                                    end_version,
                                );
                            assert(k != i);
                            assert(self.running@[k].0 == self.running@[i as int].0);
                        }
                    }
                    return false;
                }
                let ghost s = self.running@;
                assert(s[i as int] == (start_version, end_version));
                self.running.remove(i);
                proof {
                    let t = self.running@;
                    assert forall|a: int, b: int|
                        0 <= a < t.len() && 0 <= b < t.len() && a != b implies #[trigger] t[a].0
                        != #[trigger] t[b].0 by {
                        let a2 = if a < i { a } else { a + 1 };
                        let b2 = if b < i { b } else { b + 1 };
                        assert(t[a] == s[a2] && t[b] == s[b2]);
                    }
                    assert(s.contains((start_version, end_version)));
                }
                true
            },
            None => {
                proof {
                    if self.running@.contains((start_version, end_version)) {
                        let k = choose|k: int|
                            0 <= k < self.running@.len() && self.running@[k] == (
                                start_version,
                                end_version,
                            );
                        assert(self.running@[k].0 == start_version);
                    }
                }
                false
            },
        }
    }

    /// Stops admission: every later `try_admit` is refused.
    pub fn shutdown(&mut self)
        requires
            old(self).wf(),
        ensures
            final(self).wf(),
            final(self).spec_shutting_down(),
            final(self).spec_limit() == old(self).spec_limit(),
            final(self).spec_running() == old(self).spec_running(),
    {
        self.shutting_down = true;
    }

    /// Largest number of tasks that run at once.
    pub fn limit(&self) -> (r: usize)
        ensures
            r == self.spec_limit(),
    {
        self.limit
    }

    /// Whether a task for the batch starting at `start_version` is running.
    pub fn is_running(&self, start_version: u64) -> (r: bool)
        ensures
            r == start_is_running(self.spec_running(), start_version),
    {
        match find_batch(&self.running, start_version) {
            Some(i) => {
                assert(self.running@[i as int].0 == start_version);
                true
            },
            None => false,
        }
    }

    /// Whether a task for exactly the batch `[start_version, end_version]` is running.
    pub fn holds_batch(&self, start_version: u64, end_version: u64) -> (r: bool)
        requires
            self.wf(),
        ensures
            r == self.spec_running().contains((start_version, end_version)),
    {
        match find_batch(&self.running, start_version) {
            Some(i) => {
                if self.running[i].1 == end_version {
                    assert(self.running@[i as int] == (start_version, end_version));
                    true
                } else {
                    proof {
                        if self.running@.contains((start_version, end_version)) {
                            let k = choose|k: int|
                                0 <= k < self.running@.len() && self.running@[k] == (
                                    start_version,
                                    end_version,
                                );
                            assert(k != i);
                            assert(self.running@[k].0 == self.running@[i as int].0);
                        }
                    }
                    false
                }
            },
            None => {
                proof {
                    if self.running@.contains((start_version, end_version)) {
                        let k = choose|k: int|
                            0 <= k < self.running@.len() && self.running@[k] == (
                                start_version,
                                end_version,
                            );
                        assert(self.running@[k].0 == start_version);
                    }
                }
                false
            },
        }
    }

    /// Whether shutdown was requested.
    pub fn is_shutting_down(&self) -> (r: bool)
        ensures
            r == self.spec_shutting_down(),
    {
        self.shutting_down
    }

    /// Number of running tasks.
    pub fn running_len(&self) -> (r: usize)
        ensures
            r == self.spec_running().len(),
    {
        self.running.len()
    }

    /// Whether another task can be admitted now.
    pub fn has_free_slot(&self) -> (r: bool)
        ensures
            r == (!self.spec_shutting_down() && self.spec_running().len() < self.spec_limit()),
    {
        !self.shutting_down && self.running.len() < self.limit
    }
}

/// In every state a well-formed dispatcher reaches, no more tasks run than
/// its limit, and no two of them hold batches that start at the same version.
pub proof fn lemma_concurrency_bound(d: &ConcurrentDispatcher)
    requires
        d.wf(),
    ensures
        d.spec_running().len() <= d.spec_limit(),
        forall|i: int, j: int|
            0 <= i < d.spec_running().len() && 0 <= j < d.spec_running().len() && i != j
                ==> #[trigger] d.spec_running()[i].0 != #[trigger] d.spec_running()[j].0,
{
}

} // verus!
