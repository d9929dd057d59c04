//! The worker's context: one fetcher, one dispatcher, one reorder buffer and
//! one checkpoint, moved forward together by fetched batches and finished
//! tasks.

use vstd::prelude::*;
use crate::config::WorkerSettings;
use crate::dispatcher::{AdmitError, ConcurrentDispatcher};
use crate::dispatcher::{lemma_concurrency_bound, start_is_running};
use crate::fetcher::{
    BatchFetcher,
    FetchError,
    RangeRequest,
    StreamRecovery,
    lemma_fetched_gap_free,
    lemma_finished_past_ending,
    request_is_valid,
};
use crate::progress::{
    CommitOutcome,
    PersistError,
    ProgressTracker,
    lemma_committed_in_order,
    spec_resume_version,
};
use crate::reorder::{
    ProcessingResult,
    ReorderCommitBuffer,
    ReorderError,
    is_chain,
    lemma_chain_push,
    lemma_chain_bounds,
    lemma_chain_ordered,
    range_of,
    ranges_of,
};
use crate::retry::{RetryDecision, RetryPolicy, RetryState, min_delay};

verus! {

/// Why the worker stops or refuses a step.
#[derive(Clone, Copy, Debug, PartialEq, Eq, Structural)]
pub enum PipelineError {
    /// The checkpoint is the last representable version: nothing is left.
    NothingToFetch,
    /// The fetched sequence cannot go on.
    Fetch(FetchError),
    /// The batch did not get a processing slot.
    Admit(AdmitError),
    /// A task finished for a batch that is not running.
    NotDispatched { start_version: u64 },
    /// Processing the batch kept failing until its retries ran out.
    TaskFailed { start_version: u64 },
    /// The reorder buffer refused the result.
    Reorder(ReorderError),
}

/// The state of one worker run.
pub struct PipelineState {
    fetcher: BatchFetcher,
    dispatcher: ConcurrentDispatcher,
    buffer: ReorderCommitBuffer,
    tracker: ProgressTracker,
}

proof fn lemma_chain_unique_end(s: Seq<(u64, u64)>, from: int, a: int, b: int)
    requires
        is_chain(s, from, a),
        is_chain(s, from, b),
    ensures
        a == b,
{
}

/// Version `v` lies in the range of a running batch or of a waiting result.
spec fn covered(running: Seq<(u64, u64)>, pending: Seq<ProcessingResult>, v: int) -> bool {
    (exists|i: int| 0 <= i < running.len() && #[trigger] running[i].0 <= v <= running[i].1) || (
    exists|j: int|
        0 <= j < pending.len() && #[trigger] pending[j].start_version <= v
            <= pending[j].end_version)
}

proof fn lemma_released_below(out: Seq<ProcessingResult>, from: int, to: int, x: ProcessingResult)
    requires
        is_chain(ranges_of(out), from, to),
        out.contains(x),
    ensures
        x.end_version < to,
{
    let k = choose|k: int| 0 <= k < out.len() && out[k] == x;
    assert(ranges_of(out)[k] == range_of(out[k]));
    lemma_chain_bounds(ranges_of(out), from, to, k);
}

proof fn lemma_done_keeps_coverage(
    run_b: Seq<(u64, u64)>,
    i: int,
    run_a: Seq<(u64, u64)>,
    pend_old: Seq<ProcessingResult>,
    rv: ProcessingResult,
    pend_new: Seq<ProcessingResult>,
    out: Seq<ProcessingResult>,
    from: int,
    to: int,
    fnext: int,
)
    requires
        0 <= i < run_b.len(),
        run_b[i] == (rv.start_version, rv.end_version),
        run_a == run_b.remove(i),
        forall|x: ProcessingResult|
            #![trigger pend_old.push(rv).contains(x)]
            pend_old.push(rv).contains(x) <==> (pend_new.contains(x) || out.contains(x)),
        is_chain(ranges_of(out), from, to),
        from <= fnext,
        forall|k: int| 0 <= k < run_b.len() ==> #[trigger] run_b[k].0 <= run_b[k].1 < fnext,
        forall|j: int| 0 <= j < pend_old.len() ==> #[trigger] pend_old[j].end_version < fnext,
        forall|v: int| from <= v < fnext ==> #[trigger] covered(run_b, pend_old, v),
    ensures
        forall|k: int| 0 <= k < run_a.len() ==> #[trigger] run_a[k].0 <= run_a[k].1 < fnext,
        forall|j: int| 0 <= j < pend_new.len() ==> #[trigger] pend_new[j].end_version < fnext,
        from <= to <= fnext,
        forall|v: int| to <= v < fnext ==> #[trigger] covered(run_a, pend_new, v),
{
    let all = pend_old.push(rv);
    assert(all[pend_old.len() as int] == rv);
    assert(all.contains(rv));
    assert forall|x: ProcessingResult| #[trigger] all.contains(x) implies x.end_version < fnext by {
        let k = choose|k: int| 0 <= k < all.len() && all[k] == x;
        if k < pend_old.len() {
            assert(all[k] == pend_old[k]);
        } else {
            assert(run_b[i].0 <= run_b[i].1 < fnext);
        }
    }
    assert forall|k: int| 0 <= k < run_a.len() implies #[trigger] run_a[k].0 <= run_a[k].1 < fnext by {
        if k < i {
            assert(run_a[k] == run_b[k]);
        } else {
            assert(run_a[k] == run_b[k + 1]);
        }
    }
    assert forall|j: int| 0 <= j < pend_new.len() implies #[trigger] pend_new[j].end_version
        < fnext by {
        assert(pend_new.contains(pend_new[j]));
        assert(all.contains(pend_new[j]));
    }
    lemma_chain_ordered(ranges_of(out), from, to);
    if out.len() > 0 {
        let last = out[out.len() - 1];
        assert(out.contains(last));
        assert(all.contains(last));
        assert(ranges_of(out).last() == range_of(last));
    }
    assert forall|v: int| to <= v < fnext implies #[trigger] covered(run_a, pend_new, v) by {
        assert(covered(run_b, pend_old, v));
        if exists|k: int| 0 <= k < run_b.len() && #[trigger] run_b[k].0 <= v <= run_b[k].1 {
            let k = choose|k: int| 0 <= k < run_b.len() && #[trigger] run_b[k].0 <= v <= run_b[k].1;
            if k == i {
                if out.contains(rv) {
                    lemma_released_below(out, from, to, rv);
                } else {
                    assert(pend_new.contains(rv));
                    let j = choose|j: int| 0 <= j < pend_new.len() && pend_new[j] == rv;
                    assert(pend_new[j].start_version <= v <= pend_new[j].end_version);
                }
            } else if k < i {
                assert(run_a[k] == run_b[k]);
                assert(run_a[k].0 <= v <= run_a[k].1);
            } else {
                assert(run_a[k - 1] == run_b[k]);
                assert(run_a[k - 1].0 <= v <= run_a[k - 1].1);
            }
        } else {
            let j = choose|j: int|
                0 <= j < pend_old.len() && #[trigger] pend_old[j].start_version <= v
                    <= pend_old[j].end_version;
            let x = pend_old[j];
            assert(all[j] == x);
            assert(all.contains(x));
            if out.contains(x) {
                lemma_released_below(out, from, to, x);
            } else {
                let j2 = choose|j2: int| 0 <= j2 < pend_new.len() && pend_new[j2] == x;
                assert(pend_new[j2].start_version <= v <= pend_new[j2].end_version);
            }
        }
    }
}

impl PipelineState {
    /// The fetched sequence.
    pub closed spec fn spec_fetcher(&self) -> BatchFetcher {
        self.fetcher
    }

    /// The running tasks.
    pub closed spec fn spec_dispatcher(&self) -> ConcurrentDispatcher {
        self.dispatcher
    }

    /// The results that wait for commit.
    pub closed spec fn spec_buffer(&self) -> ReorderCommitBuffer {
        self.buffer
    }

    /// The checkpoint and the committed effects.
    pub closed spec fn spec_tracker(&self) -> ProgressTracker {
        self.tracker
    }

    /// The parts are each well formed, start from the same version, the
    /// buffer releases exactly where the checkpoint stands, every running
    /// task and waiting result holds versions that were fetched, every
    /// fetched version after the checkpoint is held by a running task or a
    /// waiting result, and a batch keeps its slot until
    /// its result is committed: running tasks and waiting results together
    /// stay within the concurrency limit.
    pub closed spec fn wf(&self) -> bool {
        &&& self.fetcher.wf()
        &&& self.dispatcher.wf()
        &&& self.buffer.wf()
        &&& self.tracker.wf()
        &&& self.buffer.spec_next() == self.tracker.spec_next()
        &&& self.buffer.spec_initial() == self.tracker.spec_initial()
        &&& self.fetcher.spec_initial() == self.tracker.spec_initial()
        &&& forall|i: int|
            0 <= i < self.dispatcher.spec_running().len() ==> #[trigger] self.dispatcher.spec_running()[i].0
                <= self.dispatcher.spec_running()[i].1 < self.fetcher.spec_next()
        &&& forall|j: int|
            0 <= j < self.buffer.spec_pending().len()
                ==> #[trigger] self.buffer.spec_pending()[j].end_version < self.fetcher.spec_next()
        &&& self.tracker.spec_next() <= self.fetcher.spec_next()
        &&& forall|v: int|
            self.tracker.spec_next() <= v < self.fetcher.spec_next() ==> #[trigger] covered(
                self.dispatcher.spec_running(),
                self.buffer.spec_pending(),
                v,
            )
        &&& self.dispatcher.spec_running().len() + self.buffer.spec_pending().len()
            <= self.dispatcher.spec_limit()
    }

    /// A worker for `processor_name` that resumes after the stored checkpoint,
    /// or at `starting_version` (0 if unset) when there is none, and runs up
    /// to `ending_version` with at most `concurrency` tasks at once. When the
    /// checkpoint already reached the ending version, the worker starts
    /// finished: there is nothing left to do.
    pub fn new(
        processor_name: String,
        checkpoint: Option<u64>,
        starting_version: Option<u64>,
        ending_version: Option<u64>,
        concurrency: usize,
        policy: RetryPolicy,
    ) -> (r: Result<Self, PipelineError>)
        requires
            concurrency > 0,
        ensures
            spec_resume_version(checkpoint, starting_version) is None ==> r == Err::<
                Self,
                PipelineError,
            >(PipelineError::NothingToFetch),
            spec_resume_version(checkpoint, starting_version) matches Some(v) ==> {
                &&& !request_is_valid(v, ending_version) && checkpoint is None ==> r == Err::<Self, PipelineError>(
                    PipelineError::Fetch(
                        FetchError::InvalidRequest {
                            start_version: v,
                            end_version: ending_version->Some_0,
                        },
                    ),
                )
                &&& (request_is_valid(v, ending_version) || checkpoint is Some) ==> r is Ok
            },
            r matches Ok(p) ==> {
                &&& p.wf()
                &&& Some(p.spec_fetcher().spec_next()) == spec_resume_version(
                    checkpoint,
                    starting_version,
                )
                &&& p.spec_fetcher().spec_ending() == ending_version
                &&& p.spec_fetcher().spec_finished() == !request_is_valid(
                    p.spec_fetcher().spec_next(),
                    p.spec_fetcher().spec_ending(),
                )
                &&& p.spec_buffer().spec_next() == p.spec_fetcher().spec_next()
                &&& p.spec_buffer().spec_pending().len() == 0
                &&& p.spec_tracker().spec_checkpoint() == checkpoint
                &&& p.spec_tracker().spec_effects().len() == 0
                &&& p.spec_tracker().spec_initial() == p.spec_fetcher().spec_next()
                &&& p.spec_tracker().spec_next() == p.spec_fetcher().spec_next()
                &&& p.spec_tracker().spec_name() == processor_name@
                &&& p.spec_dispatcher().spec_limit() == concurrency
                &&& p.spec_dispatcher().spec_running().len() == 0
                &&& !p.spec_dispatcher().spec_shutting_down()
            },
    {
        let tracker = match ProgressTracker::new(processor_name, checkpoint, starting_version) {
            Some(t) => t,
            None => {
                return Err(PipelineError::NothingToFetch);
            },
        };
        let start = tracker.initial_version();
        let mut reached: Option<u64> = None;
        if let Some(e) = ending_version {
            if e < start {
                if let Some(_) = checkpoint {
                    reached = Some(e);
                }
            }
        }
        let fetcher = match reached {
            Some(e) => BatchFetcher::finished_at(start, e, policy),
            None => match BatchFetcher::new(start, ending_version, policy) {
                Ok(f) => f,
                Err(e) => {
                    return Err(PipelineError::Fetch(e));
                },
            },
        };
        Ok(
            PipelineState {
                fetcher,
                dispatcher: ConcurrentDispatcher::new(concurrency),
                buffer: ReorderCommitBuffer::new(start),
                tracker,
            },
        )
    }

    /// A worker run with the given settings, resuming after `checkpoint`.
    pub fn from_settings(settings: WorkerSettings, checkpoint: Option<u64>, policy: RetryPolicy) -> (r:
        Result<Self, PipelineError>)
        requires
            settings.concurrency > 0,
        ensures
            spec_resume_version(checkpoint, settings.starting_version) is None ==> r == Err::<
                Self,
                PipelineError,
            >(PipelineError::NothingToFetch),
            spec_resume_version(checkpoint, settings.starting_version) matches Some(v) ==> {
                &&& !request_is_valid(v, settings.ending_version) && checkpoint is None ==> r == Err::<
                    Self,
                    PipelineError,
                >(
                    PipelineError::Fetch(
                        FetchError::InvalidRequest {
                            start_version: v,
                            end_version: settings.ending_version->Some_0,
                        },
                    ),
                )
                &&& (request_is_valid(v, settings.ending_version) || checkpoint is Some) ==> r is Ok
            },
            r matches Ok(p) ==> {
                &&& p.wf()
                &&& Some(p.spec_fetcher().spec_next()) == spec_resume_version(
                    checkpoint,
                    settings.starting_version,
                )
                &&& p.spec_fetcher().spec_ending() == settings.ending_version
                &&& p.spec_fetcher().spec_finished() == !request_is_valid(
                    p.spec_fetcher().spec_next(),
                    p.spec_fetcher().spec_ending(),
                )
                &&& p.spec_buffer().spec_next() == p.spec_fetcher().spec_next()
                &&& p.spec_buffer().spec_pending().len() == 0
                &&& p.spec_tracker().spec_checkpoint() == checkpoint
                &&& p.spec_tracker().spec_effects().len() == 0
                &&& p.spec_tracker().spec_initial() == p.spec_fetcher().spec_next()
                &&& p.spec_tracker().spec_next() == p.spec_fetcher().spec_next()
                &&& p.spec_tracker().spec_name() == settings.processor_name@
                &&& p.spec_dispatcher().spec_limit() == settings.concurrency
                &&& p.spec_dispatcher().spec_running().len() == 0
                &&& !p.spec_dispatcher().spec_shutting_down()
            },
    {
        PipelineState::new(
            settings.processor_name,
            checkpoint,
            settings.starting_version,
            settings.ending_version,
            settings.concurrency,
            policy,
        )
    }

    /// The error `on_batch` gives for a batch `[start_version, end_version]`, if any.
    pub open spec fn batch_error(&self, start_version: u64, end_version: u64) -> Option<PipelineError> {
        match self.spec_fetcher().accept_error(start_version, end_version) {
            Some(e) => Some(PipelineError::Fetch(e)),
            None => if self.spec_dispatcher().spec_shutting_down() {
                Some(PipelineError::Admit(AdmitError::ShuttingDown))
            } else if self.spec_dispatcher().spec_running().len() + self.spec_buffer().spec_pending().len()
                >= self.spec_dispatcher().spec_limit() {
                Some(PipelineError::Admit(AdmitError::AtCapacity))
            } else {
                None
            },
        }
    }

    /// Takes a fetched batch `[start_version, end_version]` and gives it a
    /// processing slot. Returns whether it was the last batch: the one that
    /// reaches the ending version. Refused, with nothing changed, when the
    /// batch does not continue the fetched sequence (a gap is reported as
    /// such whatever the slots), or else when no slot is free (a slot is
    /// taken by a running task or by a result that waits for commit).
    pub fn on_batch(&mut self, start_version: u64, end_version: u64) -> (r: Result<bool, PipelineError>)
        requires
            old(self).wf(),
        ensures
            final(self).wf(),
            final(self).spec_tracker() == old(self).spec_tracker(),
            final(self).spec_buffer() == old(self).spec_buffer(),
            final(self).spec_dispatcher().spec_limit() == old(self).spec_dispatcher().spec_limit(),
            final(self).spec_dispatcher().spec_shutting_down() == old(self).spec_dispatcher().spec_shutting_down(),
            final(self).spec_fetcher().spec_ending() == old(self).spec_fetcher().spec_ending(),
            final(self).spec_fetcher().spec_initial() == old(self).spec_fetcher().spec_initial(),
            match old(self).batch_error(start_version, end_version) {
                Some(e) => r == Err::<bool, PipelineError>(e) && *final(self) == *old(self),
                None => {
                    let last = match old(self).spec_fetcher().spec_ending() {
                        Some(e) => e <= end_version,
                        None => false,
                    };
                    &&& r == Ok::<bool, PipelineError>(last)
                    &&& final(self).spec_fetcher().spec_finished() == last
                    &&& final(self).spec_fetcher().spec_fetched() == old(self).spec_fetcher().spec_fetched().push((start_version, end_version))
                    &&& final(self).spec_fetcher().spec_next() == end_version + 1
                    &&& final(self).spec_dispatcher().spec_running() == old(self).spec_dispatcher().spec_running().push((start_version, end_version))
                },
            },
    {
        if let Some(e) = self.fetcher.check(start_version, end_version) {
            return Err(PipelineError::Fetch(e));
        }
        if self.dispatcher.is_shutting_down() {
            return Err(PipelineError::Admit(AdmitError::ShuttingDown));
        }
        let limit = self.dispatcher.limit();
        let taken = self.dispatcher.running_len() + self.buffer.pending_len();
        if taken >= limit {
            return Err(PipelineError::Admit(AdmitError::AtCapacity));
        }
        let last = match self.fetcher.accept(start_version, end_version) {
            Ok(b) => b,
            Err(e) => {
                return Err(PipelineError::Fetch(e));
            },
        };
        let ghost running = self.dispatcher.spec_running();
        proof {
            if start_is_running(running, start_version) {
                let k = choose|k: int| 0 <= k < running.len() && #[trigger] running[k].0 == start_version;
                assert(running[k].0 < start_version);
            }
        }
        let admitted = self.dispatcher.try_admit(start_version, end_version);
        proof {
            let now = self.dispatcher.spec_running();
            let pending = self.buffer.spec_pending();
            assert forall|i: int| 0 <= i < now.len() implies #[trigger] now[i].0 <= now[i].1
                < self.fetcher.spec_next() by {
                if i < running.len() {
                    assert(now[i] == running[i]);
                    assert(running[i].0 <= running[i].1 < old(self).fetcher.spec_next());
                } else {
                    assert(now[i] == (start_version, end_version));
                }
            }
            assert forall|v: int|
                self.tracker.spec_next() <= v < self.fetcher.spec_next() implies #[trigger] covered(
                now,
                pending,
                v,
            ) by {
                if v < start_version {
                    assert(covered(running, pending, v));
                    if exists|k: int| 0 <= k < running.len() && #[trigger] running[k].0 <= v <= running[k].1 {
                        let k = choose|k: int|
                            0 <= k < running.len() && #[trigger] running[k].0 <= v <= running[k].1;
                        assert(now[k] == running[k]);
                        assert(now[k].0 <= v <= now[k].1);
                    }
                } else {
                    let k = running.len() as int;
                    assert(now[k] == (start_version, end_version));
                    assert(now[k].0 <= v <= now[k].1);
                }
            }
        }
        match admitted {
            Ok(()) => Ok(last),
            Err(e) => Err(PipelineError::Admit(e)),
        }
    }

    /// The error `on_task_done` gives for the result `r`, if any.
    pub open spec fn done_error(&self, r: ProcessingResult) -> Option<PipelineError> {
        if !self.spec_dispatcher().spec_running().contains((r.start_version, r.end_version)) {
            Some(PipelineError::NotDispatched { start_version: r.start_version })
        } else {
            match self.spec_buffer().insert_error(r) {
                Some(e) => Some(PipelineError::Reorder(e)),
                None => None,
            }
        }
    }

    /// Takes the result of a finished task, whose range must be that of a
    /// running batch, and commits, in version order, every result that no
    /// longer waits for a predecessor: the gap-free run that starts at the
    /// checkpoint. The task's slot is freed; a result that still waits keeps
    /// one. Returns the results committed by this call. Refused, with nothing
    /// changed, when no running batch has the result's range or the reorder
    /// buffer cannot take it. The committed results are handed back, in
    /// version order, for the store to write with the new checkpoint in one
    /// transaction.
    pub fn on_task_done(&mut self, r: ProcessingResult) -> (res: Result<Vec<ProcessingResult>, PipelineError>)
        requires
            old(self).wf(),
        ensures
            final(self).wf(),
            final(self).spec_fetcher() == old(self).spec_fetcher(),
            final(self).spec_dispatcher().spec_limit() == old(self).spec_dispatcher().spec_limit(),
            final(self).spec_dispatcher().spec_shutting_down() == old(self).spec_dispatcher().spec_shutting_down(),
            final(self).spec_tracker().spec_name() == old(self).spec_tracker().spec_name(),
            final(self).spec_tracker().spec_initial() == old(self).spec_tracker().spec_initial(),
            final(self).spec_buffer().spec_next() == final(self).spec_tracker().spec_next(),
            match old(self).done_error(r) {
                Some(e) => res == Err::<Vec<ProcessingResult>, PipelineError>(e) && *final(self) == *old(self),
                None => res is Ok,
            },
            res matches Ok(c) ==> {
                &&& final(self).spec_tracker().spec_effects() == old(self).spec_tracker().spec_effects() + c@
                &&& is_chain(
                    ranges_of(c@),
                    old(self).spec_tracker().spec_next(),
                    final(self).spec_tracker().spec_next(),
                )
                &&& forall|x: ProcessingResult|
                    #![trigger old(self).spec_buffer().spec_pending().push(r).contains(x)]
                    old(self).spec_buffer().spec_pending().push(r).contains(x) <==> (final(self).spec_buffer().spec_pending().contains(x) || c@.contains(x))
                &&& final(self).spec_buffer().spec_pending().len() + c@.len() == old(self).spec_buffer().spec_pending().len() + 1
                &&& forall|i: int|
                    0 <= i < final(self).spec_buffer().spec_pending().len()
                        ==> #[trigger] final(self).spec_buffer().spec_pending()[i].start_version != final(self).spec_tracker().spec_next()
                &&& c@.len() == 0 ==> final(self).spec_tracker().spec_checkpoint() == old(self).spec_tracker().spec_checkpoint()
                &&& c@.len() > 0 ==> final(self).spec_tracker().spec_checkpoint() == Some(c@.last().end_version)
                &&& exists|i: int|
                    0 <= i < old(self).spec_dispatcher().spec_running().len()
                        && old(self).spec_dispatcher().spec_running()[i] == (r.start_version, r.end_version)
                        && final(self).spec_dispatcher().spec_running() == old(self).spec_dispatcher().spec_running().remove(i)
            },
    {
        let rs = r.start_version;
        let re = r.end_version;
        if !self.dispatcher.holds_batch(rs, re) {
            return Err(PipelineError::NotDispatched { start_version: rs });
        }
        let ghost pend_old = self.buffer.spec_pending();
        let ghost rv = r;
        let mut out = match self.buffer.insert(r) {
            Ok(o) => o,
            Err(e) => {
                return Err(PipelineError::Reorder(e));
            },
        };
        let ghost running_before = self.dispatcher.spec_running();
        let freed = self.dispatcher.complete(rs, re);
        let ghost running_after = self.dispatcher.spec_running();
        proof {
            assert(freed);
        }
        let ghost idx = choose|i: int|
            0 <= i < running_before.len() && running_before[i] == (rs, re) && running_after
                == running_before.remove(i);
        let ghost all_out = out@;
        let ghost seg = ranges_of(all_out);
        let ghost dispatcher_now = self.dispatcher;
        let ghost buffer_now = self.buffer;
        let ghost start_next = self.tracker.spec_next();
        let ghost start_effects = self.tracker.spec_effects();
        let ghost start_checkpoint = self.tracker.spec_checkpoint();
        proof {
            assert(seg.subrange(0, 0) =~= Seq::<(u64, u64)>::empty());
            assert(start_effects + all_out.subrange(0, 0) =~= start_effects);
        }
        let mut i: usize = 0;
        while i < out.len()
            invariant
                self.fetcher == old(self).fetcher,
                self.dispatcher == dispatcher_now,
                self.buffer == buffer_now,
                self.tracker.wf(),
                self.tracker.spec_name() == old(self).tracker.spec_name(),
                self.tracker.spec_initial() == old(self).tracker.spec_initial(),
                out@ == all_out,
                seg == ranges_of(all_out),
                is_chain(seg, start_next, self.buffer.spec_next() as int),
                0 <= i <= all_out.len(),
                is_chain(seg.subrange(0, i as int), start_next, self.tracker.spec_next()),
                self.tracker.spec_effects() == start_effects + all_out.subrange(0, i as int),
                i == 0 ==> self.tracker.spec_checkpoint() == start_checkpoint,
                i > 0 ==> self.tracker.spec_checkpoint() == Some(all_out[i - 1].end_version),
            decreases all_out.len() - i,
        {
            let ghost k = i as int;
            let ghost cm = seg.subrange(0, k);
            proof {
                assert(seg[k] == range_of(all_out[k]));
                assert(seg[k].0 == all_out[k].start_version);
                assert(seg[k].0 <= seg[k].1);
                assert(all_out[k].start_version == if k == 0 {
                    start_next
                } else {
                    seg[k - 1].1 + 1
                });
                if k > 0 {
                    assert(cm.last() == seg[k - 1]);
                    assert(seg[k - 1] == range_of(all_out[k - 1]));
                }
            }
            let ghost next_before = self.tracker.spec_next();
            let outcome = self.tracker.commit(&out[i]);
            proof {
                assert(outcome == Ok::<CommitOutcome, PersistError>(CommitOutcome::Committed));
                assert(self.tracker.spec_effects() =~= start_effects + all_out.subrange(0, k + 1));
                lemma_chain_push(cm, start_next, next_before, seg[k]);
                assert(seg.subrange(0, k + 1) =~= cm.push(seg[k]));
            }
            i = i + 1;
        }
        proof {
            assert(seg.subrange(0, all_out.len() as int) =~= seg);
            assert(all_out.subrange(0, all_out.len() as int) =~= all_out);
            lemma_chain_unique_end(seg, start_next, self.tracker.spec_next(), self.buffer.spec_next() as int);
            if all_out.len() > 0 {
                assert(seg.last() == range_of(all_out.last()));
            }
            lemma_done_keeps_coverage(
                running_before,
                idx,
                running_after,
                pend_old,
                rv,
                self.buffer.spec_pending(),
                all_out,
                start_next,
                self.tracker.spec_next(),
                self.fetcher.spec_next() as int,
            );
        }
        Ok(out)
    }

    /// Decides what follows a failed attempt to process the batch starting
    /// at `start_version`, whose retries are counted in `retry`. The task
    /// keeps its slot: while retries remain, it is run again after the
    /// returned delay; once they run out, the failure is fatal and no further
    /// batch is admitted.
    pub fn on_task_failed(&mut self, start_version: u64, retry: &mut RetryState) -> (r: Result<
        u64,
        PipelineError,
    >)
        requires
            old(self).wf(),
            old(retry).wf(),
        ensures
            final(self).wf(),
            final(retry).wf(),
            final(self).spec_fetcher() == old(self).spec_fetcher(),
            final(self).spec_buffer() == old(self).spec_buffer(),
            final(self).spec_tracker() == old(self).spec_tracker(),
            final(self).spec_dispatcher().spec_running() == old(self).spec_dispatcher().spec_running(),
            final(self).spec_dispatcher().spec_limit() == old(self).spec_dispatcher().spec_limit(),
            !start_is_running(old(self).spec_dispatcher().spec_running(), start_version) ==> {
                &&& r == Err::<u64, PipelineError>(PipelineError::NotDispatched { start_version })
                &&& *final(self) == *old(self)
                &&& *final(retry) == *old(retry)
            },
            start_is_running(old(self).spec_dispatcher().spec_running(), start_version) ==> {
                &&& old(retry).retries >= old(retry).policy.max_retries ==> {
                    &&& r == Err::<u64, PipelineError>(PipelineError::TaskFailed { start_version })
                    &&& final(self).spec_dispatcher().spec_shutting_down()
                    &&& *final(retry) == *old(retry)
                }
                &&& old(retry).retries < old(retry).policy.max_retries ==> {
                    &&& r == Ok::<u64, PipelineError>(old(retry).next_delay_ms)
                    &&& *final(self) == *old(self)
                    &&& final(retry).retries == old(retry).retries + 1
                    &&& final(retry).next_delay_ms == min_delay(
                        2 * old(retry).next_delay_ms,
                        old(retry).policy.max_delay_ms as int,
                    )
                }
            },
    {
        if !self.dispatcher.is_running(start_version) {
            return Err(PipelineError::NotDispatched { start_version });
        }
        match retry.on_failure() {
            RetryDecision::RetryAfter { delay_ms } => Ok(delay_ms),
            RetryDecision::GiveUp => {
                self.dispatcher.shutdown();
                Err(PipelineError::TaskFailed { start_version })
            },
        }
    }

    /// Decides what follows a failure of the upstream stream: reconnect from
    /// the next unconsumed version after a backoff delay, or stop once the
    /// stream's retries are exhausted.
    pub fn on_stream_error(&mut self) -> (r: StreamRecovery)
        requires
            old(self).wf(),
        ensures
            final(self).wf(),
            final(self).spec_dispatcher() == old(self).spec_dispatcher(),
            final(self).spec_buffer() == old(self).spec_buffer(),
            final(self).spec_tracker() == old(self).spec_tracker(),
            final(self).spec_fetcher().spec_next() == old(self).spec_fetcher().spec_next(),
            final(self).spec_fetcher().spec_fetched() == old(self).spec_fetcher().spec_fetched(),
            final(self).spec_fetcher().spec_ending() == old(self).spec_fetcher().spec_ending(),
            final(self).spec_fetcher().spec_initial() == old(self).spec_fetcher().spec_initial(),
            final(self).spec_fetcher().spec_finished() == old(self).spec_fetcher().spec_finished(),
            final(self).spec_fetcher().spec_retry().policy == old(self).spec_fetcher().spec_retry().policy,
            old(self).spec_fetcher().spec_retry().retries < old(self).spec_fetcher().spec_retry().policy.max_retries
                ==> final(self).spec_fetcher().spec_retry().retries == old(self).spec_fetcher().spec_retry().retries + 1,
            old(self).spec_fetcher().spec_retry().retries < old(self).spec_fetcher().spec_retry().policy.max_retries
                ==> final(self).spec_fetcher().spec_retry().next_delay_ms == min_delay(
                2 * old(self).spec_fetcher().spec_retry().next_delay_ms,
                old(self).spec_fetcher().spec_retry().policy.max_delay_ms as int,
            ),
            old(self).spec_fetcher().spec_retry().retries >= old(self).spec_fetcher().spec_retry().policy.max_retries
                ==> *final(self) == *old(self),
            old(self).spec_fetcher().spec_retry().retries >= old(self).spec_fetcher().spec_retry().policy.max_retries ==> r == StreamRecovery::Fatal(
                FetchError::RetriesExhausted { next_version: old(self).spec_fetcher().spec_next() },
            ),
            old(self).spec_fetcher().spec_retry().retries < old(self).spec_fetcher().spec_retry().policy.max_retries ==> r == (StreamRecovery::Reconnect {
                request: RangeRequest {
                    start_version: old(self).spec_fetcher().spec_next(),
                    end_version: old(self).spec_fetcher().spec_ending(),
                },
                delay_ms: old(self).spec_fetcher().spec_retry().next_delay_ms,
            }),
    {
        self.fetcher.on_stream_error()
    }

    /// Stops admitting batches; running tasks may still finish and commit.
    pub fn shutdown(&mut self)
        requires
            old(self).wf(),
        ensures
            final(self).wf(),
            final(self).spec_dispatcher().spec_shutting_down(),
            final(self).spec_dispatcher().spec_running() == old(self).spec_dispatcher().spec_running(),
            final(self).spec_dispatcher().spec_limit() == old(self).spec_dispatcher().spec_limit(),
            final(self).spec_fetcher() == old(self).spec_fetcher(),
            final(self).spec_buffer() == old(self).spec_buffer(),
            final(self).spec_tracker() == old(self).spec_tracker(),
    {
        self.dispatcher.shutdown();
    }

    /// The run is over: the last batch was fetched, no task runs, and no
    /// result waits for commit.
    pub fn is_done(&self) -> (r: bool)
        ensures
            r == (self.spec_fetcher().spec_finished() && self.spec_dispatcher().spec_running().len()
                == 0 && self.spec_buffer().spec_pending().len() == 0),
    {
        self.fetcher.is_finished() && self.dispatcher.running_len() == 0
            && self.buffer.pending_len() == 0
    }

    /// The last committed version, if any.
    pub fn checkpoint(&self) -> (r: Option<u64>)
        ensures
            r == self.spec_tracker().spec_checkpoint(),
    {
        self.tracker.last_success_version()
    }

    /// The last version to fetch, if bounded.
    pub fn ending_version(&self) -> (r: Option<u64>)
        ensures
            r == self.spec_fetcher().spec_ending(),
    {
        self.fetcher.ending_version()
    }

    /// The version the next fetched batch must start at.
    pub fn next_fetch_version(&self) -> (r: u64)
        ensures
            r == self.spec_fetcher().spec_next(),
    {
        self.fetcher.next_expected_version()
    }

    /// The next version to commit.
    pub fn next_commit_version(&self) -> (r: u64)
        ensures
            r == self.spec_buffer().spec_next(),
    {
        self.buffer.next_commit_version()
    }

    /// Number of running tasks.
    pub fn running_tasks(&self) -> (r: usize)
        ensures
            r == self.spec_dispatcher().spec_running().len(),
    {
        self.dispatcher.running_len()
    }

    /// Number of results that wait for a predecessor.
    pub fn pending_results(&self) -> (r: usize)
        ensures
            r == self.spec_buffer().spec_pending().len(),
    {
        self.buffer.pending_len()
    }
}

/// Whatever order tasks finish in, every state a worker reaches has
/// committed a gap-free run of ranges: from the version it resumed at,
/// without a repeated version, up to its checkpoint, which is also where
/// the reorder buffer will release next.
pub proof fn lemma_pipeline_commits_in_order(p: &PipelineState)
    requires
        p.wf(),
    ensures
        is_chain(
            ranges_of(p.spec_tracker().spec_effects()),
            p.spec_tracker().spec_initial() as int,
            p.spec_tracker().spec_next(),
        ),
        forall|i: int, j: int|
            0 <= i < j < p.spec_tracker().spec_effects().len() ==> #[trigger] ranges_of(
                p.spec_tracker().spec_effects(),
            )[i].1 < #[trigger] ranges_of(p.spec_tracker().spec_effects())[j].0,
        p.spec_buffer().spec_next() == p.spec_tracker().spec_next(),
{
    lemma_committed_in_order(&p.tracker);
}

/// After a restart, nothing at or before the version the worker resumed
/// from is fetched or committed again, in any state the worker reaches:
/// such a batch is refused by `on_batch`, such a result by `on_task_done`,
/// and the checkpoint never falls below the one it resumed from.
pub proof fn lemma_resume_no_reprocessing(
    p: &PipelineState,
    start_version: u64,
    end_version: u64,
    effects: Vec<u8>,
)
    requires
        p.wf(),
        start_version < p.spec_tracker().spec_initial(),
    ensures
        p.spec_fetcher().accept_error(start_version, end_version) is Some,
        p.batch_error(start_version, end_version) is Some,
        p.spec_buffer().insert_error(
            (ProcessingResult { start_version, end_version, effects }),
        ) is Some,
        p.done_error((ProcessingResult { start_version, end_version, effects })) is Some,
        p.spec_tracker().spec_initial() <= p.spec_tracker().spec_next(),
        p.spec_tracker().spec_checkpoint() matches Some(c) ==> c + 1 >= p.spec_tracker().spec_initial(),
{
    lemma_fetched_gap_free(&p.fetcher);
    lemma_chain_ordered(
        p.fetcher.spec_fetched(),
        p.fetcher.spec_initial() as int,
        p.fetcher.spec_next() as int,
    );
    lemma_committed_in_order(&p.tracker);
}

/// A batch that does not start at the next version to fetch is refused as
/// a sequence gap, whatever the slots, while fetching goes on; `on_batch`
/// then changes nothing, so nothing past the last contiguous version is
/// committed.
pub proof fn lemma_gap_is_fatal(p: &PipelineState, start_version: u64, end_version: u64)
    requires
        p.wf(),
        !p.spec_fetcher().spec_finished(),
        start_version != p.spec_fetcher().spec_next(),
    ensures
        p.batch_error(start_version, end_version) == Some(
            PipelineError::Fetch(
                FetchError::SequenceGap {
                    expected_version: p.spec_fetcher().spec_next(),
                    received_version: start_version,
                },
            ),
        ),
{
}

/// A run that is over, with the last batch fetched and nothing running or
/// waiting, has committed every fetched version, through the ending
/// version: the checkpoint stands right before the next version to fetch,
/// past the ending version.
pub proof fn lemma_done_means_committed(p: &PipelineState)
    requires
        p.wf(),
        p.spec_fetcher().spec_finished(),
        p.spec_dispatcher().spec_running().len() == 0,
        p.spec_buffer().spec_pending().len() == 0,
    ensures
        p.spec_tracker().spec_next() == p.spec_fetcher().spec_next(),
        p.spec_fetcher().spec_ending() matches Some(e) && e < p.spec_tracker().spec_next(),
{
    lemma_finished_past_ending(&p.fetcher);
    if p.tracker.spec_next() < p.fetcher.spec_next() {
        let v = p.tracker.spec_next();
        assert(covered(p.dispatcher.spec_running(), p.buffer.spec_pending(), v));
    }
}

/// At no point do more tasks run than the configured limit, and no more
/// results wait in the reorder buffer than that limit either.
pub proof fn lemma_pipeline_concurrency_bound(p: &PipelineState)
    requires
        p.wf(),
    ensures
        p.spec_dispatcher().spec_running().len() <= p.spec_dispatcher().spec_limit(),
        p.spec_buffer().spec_pending().len() <= p.spec_dispatcher().spec_limit(),
{
    lemma_concurrency_bound(&p.dispatcher);
}

} // verus!
