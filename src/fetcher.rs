//! Turns a possibly interrupted stream of batches into a gap-free, strictly
//! increasing sequence, and decides how to resume after a stream failure.

use vstd::prelude::*;
use crate::reorder::is_chain;
use crate::retry::{RetryDecision, RetryPolicy, RetryState, min_delay};

verus! {

/// A request for the versions from `start_version` on, up to `end_version`
/// if it is set.
#[derive(Clone, Copy, Debug, PartialEq, Eq, Structural)]
pub struct RangeRequest {
    pub start_version: u64,
    pub end_version: Option<u64>,
}

/// Why the fetched sequence cannot go on.
#[derive(Clone, Copy, Debug, PartialEq, Eq, Structural)]
pub enum FetchError {
    /// The requested ending version lies before the starting version.
    InvalidRequest { start_version: u64, end_version: u64 },
    /// A batch starts after its own end.
    InvalidBatch { start_version: u64, end_version: u64 },
    /// A batch reaches the last representable version, after which nothing can follow.
    VersionOverflow { end_version: u64 },
    /// A batch does not start at the version that was expected next.
    SequenceGap { expected_version: u64, received_version: u64 },
    /// A batch arrived after the ending version had been reached.
    AlreadyFinished { start_version: u64 },
    /// The stream kept failing until the retries ran out.
    RetriesExhausted { next_version: u64 },
}

/// What to do after the stream failed.
#[derive(Clone, Copy, Debug, PartialEq, Eq, Structural)]
pub enum StreamRecovery {
    /// Wait `delay_ms` milliseconds, then issue `request`.
    Reconnect { request: RangeRequest, delay_ms: u64 },
    /// Stop the worker with this error.
    Fatal(FetchError),
}

/// Where the fetched sequence stands.
pub struct BatchFetcher {
    next_expected_version: u64,
    ending_version: Option<u64>,
    finished: bool,
    retry: RetryState,
    initial_version: Ghost<u64>,
    fetched: Ghost<Seq<(u64, u64)>>,
}

/// A range request is valid when its end, if set, is not before its start.
pub open spec fn request_is_valid(start_version: u64, end_version: Option<u64>) -> bool {
    match end_version {
        Some(e) => start_version <= e,
        None => true,
    }
}

/// Builds a range request, refusing one whose end lies before its start.
pub fn request_range(start_version: u64, end_version: Option<u64>) -> (r: Result<
    RangeRequest,
    FetchError,
>)
    ensures
        request_is_valid(start_version, end_version) ==> r == Ok::<RangeRequest, FetchError>(
            (RangeRequest { start_version, end_version }),
        ),
        !request_is_valid(start_version, end_version) ==> r == Err::<RangeRequest, FetchError>(
            (FetchError::InvalidRequest { start_version, end_version: end_version->Some_0 }),
        ),
{
    match end_version {
        Some(e) => {
            if e < start_version {
                return Err(FetchError::InvalidRequest { start_version, end_version: e });
            }
        },
        None => {},
    }
    Ok(RangeRequest { start_version, end_version })
}

impl BatchFetcher {
    /// The version the next batch must start at.
    pub closed spec fn spec_next(&self) -> u64 {
        self.next_expected_version
    }

    /// The last version to fetch, if bounded.
    pub closed spec fn spec_ending(&self) -> Option<u64> {
        self.ending_version
    }

    /// The batch reaching the ending version was delivered.
    pub closed spec fn spec_finished(&self) -> bool {
        self.finished
    }

    /// The state of the stream's retries.
    pub closed spec fn spec_retry(&self) -> RetryState {
        self.retry
    }

    /// The version fetching started at.
    pub closed spec fn spec_initial(&self) -> u64 {
        self.initial_version@
    }

    /// The ranges of every batch delivered so far, in order.
    pub closed spec fn spec_fetched(&self) -> Seq<(u64, u64)> {
        self.fetched@
    }

    /// The delivered batches follow one another without a gap from the
    /// initial version up to the one before the next expected, and the
    /// fetcher finishes only once it is past the ending version.
    pub closed spec fn wf(&self) -> bool {
        &&& self.retry.wf()
        &&& is_chain(self.fetched@, self.initial_version@ as int, self.next_expected_version as int)
        &&& (request_is_valid(self.initial_version@, self.ending_version) || (self.finished
            && self.fetched@.len() == 0))
        &&& self.finished ==> (self.ending_version matches Some(e) && e < self.next_expected_version)
    }

    /// The error `accept` gives for a batch `[start_version, end_version]`, if any.
    pub open spec fn accept_error(&self, start_version: u64, end_version: u64) -> Option<FetchError> {
        if self.spec_finished() {
            Some(FetchError::AlreadyFinished { start_version })
        } else if start_version != self.spec_next() {
            Some(
                FetchError::SequenceGap {
                    expected_version: self.spec_next(),
                    received_version: start_version,
                },
            )
        } else if start_version > end_version {
            Some(FetchError::InvalidBatch { start_version, end_version })
        } else if end_version == u64::MAX {
            Some(FetchError::VersionOverflow { end_version })
        } else {
            None
        }
    }

    /// A fetcher that expects `start_version` first and stops after the
    /// batch reaching `ending_version`, if set.
    pub fn new(start_version: u64, ending_version: Option<u64>, policy: RetryPolicy) -> (r: Result<
        Self,
        FetchError,
    >)
        ensures
            request_is_valid(start_version, ending_version) <==> r is Ok,
            !request_is_valid(start_version, ending_version) ==> r == Err::<Self, FetchError>(
                (FetchError::InvalidRequest {
                    start_version,
                    end_version: ending_version->Some_0,
                }),
            ),
            r matches Ok(f) ==> {
                &&& f.wf()
                &&& f.spec_next() == start_version
                &&& f.spec_initial() == start_version
                &&& f.spec_ending() == ending_version
                &&& !f.spec_finished()
                &&& f.spec_fetched().len() == 0
                &&& f.spec_retry() == RetryState::spec_new(policy)
            },
    {
        let req = request_range(start_version, ending_version);
        match req {
            Err(e) => Err(e),
            Ok(_) => Ok(
                BatchFetcher {
                    next_expected_version: start_version,
                    ending_version,
                    finished: false,
                    retry: RetryState::new(policy),
                    initial_version: Ghost(start_version),
                    fetched: Ghost(Seq::empty()),
                },
            ),
        }
    }

    /// A fetcher that has nothing left to fetch: the ending version lies
    /// before `start_version`, as when a restart finds everything up to the
    /// ending version committed.
    pub fn finished_at(start_version: u64, ending_version: u64, policy: RetryPolicy) -> (f: Self)
        requires
            ending_version < start_version,
        ensures
            f.wf(),
            f.spec_next() == start_version,
            f.spec_initial() == start_version,
            f.spec_ending() == Some(ending_version),
            f.spec_finished(),
            f.spec_fetched().len() == 0,
            f.spec_retry() == RetryState::spec_new(policy),
    {
        BatchFetcher {
            next_expected_version: start_version,
            ending_version: Some(ending_version),
            finished: true,
            retry: RetryState::new(policy),
            initial_version: Ghost(start_version),
            fetched: Ghost(Seq::empty()),
        }
    }

    /// The error `accept` would give for the batch `[start_version, end_version]`,
    /// without taking it in.
    pub fn check(&self, start_version: u64, end_version: u64) -> (r: Option<FetchError>)
        ensures
            r == self.accept_error(start_version, end_version),
    {
        if self.finished {
            Some(FetchError::AlreadyFinished { start_version })
        } else if start_version != self.next_expected_version {
            Some(
                FetchError::SequenceGap {
                    expected_version: self.next_expected_version,
                    received_version: start_version,
                },
            )
        } else if start_version > end_version {
            Some(FetchError::InvalidBatch { start_version, end_version })
        } else if end_version == u64::MAX {
            Some(FetchError::VersionOverflow { end_version })
        } else {
            None
        }
    }

    /// Checks that a batch `[start_version, end_version]` continues the
    /// sequence and takes it in. Returns whether it was the last batch: the
    /// one that reaches the ending version. Batch boundaries are kept as
    /// they come: a last batch that runs past the ending version is delivered
    /// whole.
    pub fn accept(&mut self, start_version: u64, end_version: u64) -> (r: Result<bool, FetchError>)
        requires
            old(self).wf(),
        ensures
            final(self).wf(),
            final(self).spec_initial() == old(self).spec_initial(),
            final(self).spec_ending() == old(self).spec_ending(),
            match old(self).accept_error(start_version, end_version) {
                Some(e) => r == Err::<bool, FetchError>(e) && *final(self) == *old(self),
                None => {
                    let last = match old(self).spec_ending() {
                        Some(e) => e <= end_version,
                        None => false,
                    };
                    &&& r == Ok::<bool, FetchError>(last)
                    &&& final(self).spec_finished() == last
                    &&& final(self).spec_next() == end_version + 1
                    &&& final(self).spec_fetched() == old(self).spec_fetched().push(
                        (start_version, end_version),
                    )
                    &&& final(self).spec_retry() == RetryState::spec_new(old(self).spec_retry().policy)
                },
            },
    {
        if self.finished {
            return Err(FetchError::AlreadyFinished { start_version });
        }
        if start_version != self.next_expected_version {
            return Err(
                FetchError::SequenceGap {
                    expected_version: self.next_expected_version,
                    received_version: start_version,
                },
            );
        }
        if start_version > end_version {
            return Err(FetchError::InvalidBatch { start_version, end_version });
        }
        if end_version == u64::MAX {
            return Err(FetchError::VersionOverflow { end_version });
        }
        let last = match self.ending_version {
            Some(e) => e <= end_version,
            None => false,
        };
        proof {
            let s = self.fetched@;
            let t = s.push((start_version, end_version));
            assert forall|i: int| 0 <= i < t.len() implies #[trigger] t[i].0 == if i == 0 {
                self.initial_version@ as int
            } else {
                t[i - 1].1 + 1
            } by {
                if i < s.len() {
                    assert(t[i] == s[i]);
                    if i > 0 {
                        assert(t[i - 1] == s[i - 1]);
                    }
                }
            }
        }
        self.next_expected_version = end_version + 1;
        self.finished = last;
        self.fetched = Ghost(self.fetched@.push((start_version, end_version)));
        self.retry.on_success();
        Ok(last)
    }

    /// Decides what follows a stream failure: while retries remain, issue
    /// the same range again from the next unconsumed version after the
    /// backoff delay; otherwise stop.
    pub fn on_stream_error(&mut self) -> (r: StreamRecovery)
        requires
            old(self).wf(),
        ensures
            final(self).wf(),
            final(self).spec_next() == old(self).spec_next(),
            final(self).spec_initial() == old(self).spec_initial(),
            final(self).spec_ending() == old(self).spec_ending(),
            final(self).spec_finished() == old(self).spec_finished(),
            final(self).spec_fetched() == old(self).spec_fetched(),
            final(self).spec_retry().policy == old(self).spec_retry().policy,
            old(self).spec_retry().retries >= old(self).spec_retry().policy.max_retries ==> r
                == StreamRecovery::Fatal(
                FetchError::RetriesExhausted { next_version: old(self).spec_next() },
            ),
            old(self).spec_retry().retries < old(self).spec_retry().policy.max_retries ==> {
                &&& r == (StreamRecovery::Reconnect {
                    request: RangeRequest {
                        start_version: old(self).spec_next(),
                        end_version: old(self).spec_ending(),
                    },
                    delay_ms: old(self).spec_retry().next_delay_ms,
                })
                &&& final(self).spec_retry().retries == old(self).spec_retry().retries + 1
                &&& final(self).spec_retry().next_delay_ms == min_delay(
                    2 * old(self).spec_retry().next_delay_ms,
                    old(self).spec_retry().policy.max_delay_ms as int,
                )
            },
            old(self).spec_retry().retries >= old(self).spec_retry().policy.max_retries ==> *final(self) == *old(self),
    {
        match self.retry.on_failure() {
            RetryDecision::GiveUp => StreamRecovery::Fatal(
                FetchError::RetriesExhausted { next_version: self.next_expected_version },
            ),
            RetryDecision::RetryAfter { delay_ms } => StreamRecovery::Reconnect {
                request: RangeRequest {
                    start_version: self.next_expected_version,
                    end_version: self.ending_version,
                },
                delay_ms,
            },
        }
    }

    /// The version the next batch must start at.
    pub fn next_expected_version(&self) -> (r: u64)
        ensures
            r == self.spec_next(),
    {
        self.next_expected_version
    }

    /// The last version to fetch, if bounded.
    pub fn ending_version(&self) -> (r: Option<u64>)
        ensures
            r == self.spec_ending(),
    {
        self.ending_version
    }

    /// Whether the batch reaching the ending version was delivered.
    pub fn is_finished(&self) -> (r: bool)
        ensures
            r == self.spec_finished(),
    {
        self.finished
    }
}

/// A finished fetcher is past its ending version.
pub proof fn lemma_finished_past_ending(f: &BatchFetcher)
    requires
        f.wf(),
    ensures
        f.spec_finished() ==> (f.spec_ending() matches Some(e) && e < f.spec_next()),
{
}

/// Batches accepted by a well-formed fetcher follow one another from its
/// initial version without a gap or an overlap.
pub proof fn lemma_fetched_gap_free(f: &BatchFetcher)
    requires
        f.wf(),
    ensures
        is_chain(f.spec_fetched(), f.spec_initial() as int, f.spec_next() as int),
{
}

} // verus!
