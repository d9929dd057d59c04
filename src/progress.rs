//! The checkpoint of one processor identity and the record of what was
//! committed under it.

use vstd::prelude::*;
use crate::reorder::{
    ProcessingResult,
    is_chain,
    lemma_chain_increasing,
    lemma_chain_ordered,
    ranges_of,
};

verus! {

/// Why a commit was refused.
#[derive(Clone, Copy, Debug, PartialEq, Eq, Structural)]
pub enum PersistError {
    /// The result starts after its own end.
    InvalidRange { start_version: u64, end_version: u64 },
    /// The result does not start right after the last committed version.
    OutOfOrder { expected_version: u64, received_version: u64 },
}

/// What a successful commit did.
#[derive(Clone, Copy, Debug, PartialEq, Eq, Structural)]
pub enum CommitOutcome {
    /// Effects were written and the checkpoint advanced, together.
    Committed,
    /// The versions were committed before: nothing was written again.
    AlreadyCommitted,
}

/// The version to resume from: the one after the checkpoint, or the
/// configured starting version (0 if unset) when there is no checkpoint.
/// `None` when the checkpoint is the last representable version.
pub open spec fn spec_resume_version(checkpoint: Option<u64>, starting_version: Option<u64>) -> Option<u64> {
    match checkpoint {
        Some(v) => if v == u64::MAX {
            None
        } else {
            Some((v + 1) as u64)
        },
        None => Some(
            match starting_version {
                Some(s) => s,
                None => 0,
            },
        ),
    }
}

/// The version to resume from, given the stored checkpoint and the
/// configured starting version.
pub fn resume_version(checkpoint: Option<u64>, starting_version: Option<u64>) -> (r: Option<u64>)
    ensures
        r == spec_resume_version(checkpoint, starting_version),
{
    match checkpoint {
        Some(v) => if v == u64::MAX {
            None
        } else {
            Some(v + 1)
        },
        None => match starting_version {
            Some(s) => Some(s),
            None => Some(0),
        },
    }
}

/// The checkpoint record of one processor identity. What was committed
/// under it is kept as a model only: the effects themselves go to the store,
/// in the same transaction as the checkpoint that covers them.
pub struct ProgressTracker {
    processor_name: String,
    initial_version: u64,
    last_success_version: Option<u64>,
    effects: Ghost<Seq<ProcessingResult>>,
}

impl ProgressTracker {
    /// The processor identity this checkpoint belongs to.
    pub closed spec fn spec_name(&self) -> Seq<char> {
        self.processor_name@
    }

    /// The first version to commit when nothing was committed yet.
    pub closed spec fn spec_initial(&self) -> u64 {
        self.initial_version
    }

    /// The last committed version, if any.
    pub closed spec fn spec_checkpoint(&self) -> Option<u64> {
        self.last_success_version
    }

    /// The committed results, in commit order.
    pub closed spec fn spec_effects(&self) -> Seq<ProcessingResult> {
        self.effects@
    }

    /// The version the next commit must start at.
    pub open spec fn spec_next(&self) -> int {
        match self.spec_checkpoint() {
            Some(v) => v + 1,
            None => self.spec_initial() as int,
        }
    }

    /// The committed effects cover, range after range, exactly the versions
    /// from the initial one through the checkpoint.
    pub closed spec fn wf(&self) -> bool {
        &&& is_chain(ranges_of(self.effects@), self.initial_version as int, self.spec_next())
        &&& (self.last_success_version is None ==> self.effects@.len() == 0)
    }

    /// A commit of `r` would find its versions committed already.
    pub open spec fn is_committed(&self, r: ProcessingResult) -> bool {
        match self.spec_checkpoint() {
            Some(v) => r.end_version <= v,
            None => false,
        }
    }

    /// The error `commit` gives for `r`, if any.
    pub open spec fn commit_error(&self, r: ProcessingResult) -> Option<PersistError> {
        if r.start_version > r.end_version {
            Some(
                PersistError::InvalidRange {
                    start_version: r.start_version,
                    end_version: r.end_version,
                },
            )
        } else if self.is_committed(r) {
            None
        } else if r.start_version != self.spec_next() {
            Some(
                PersistError::OutOfOrder {
                    expected_version: self.spec_next() as u64,
                    received_version: r.start_version,
                },
            )
        } else {
            None
        }
    }

    /// A tracker for `processor_name` that starts from the stored checkpoint
    /// `checkpoint`, or at `starting_version` (0 if unset) when there is
    /// none. `None` when the checkpoint is the last representable version:
    /// nothing is left to commit.
    pub fn new(processor_name: String, checkpoint: Option<u64>, starting_version: Option<u64>) -> (r:
        Option<Self>)
        ensures
            spec_resume_version(checkpoint, starting_version) is None <==> r is None,
            r matches Some(t) ==> {
                &&& t.wf()
                &&& t.spec_name() == processor_name@
                &&& t.spec_checkpoint() == checkpoint
                &&& Some(t.spec_initial()) == spec_resume_version(checkpoint, starting_version)
                &&& t.spec_next() == t.spec_initial()
                &&& t.spec_effects().len() == 0
            },
    {
        let initial_version = match resume_version(checkpoint, starting_version) {
            Some(v) => v,
            None => {
                return None;
            },
        };
        let t = ProgressTracker {
            processor_name,
            initial_version,
            last_success_version: checkpoint,
            effects: Ghost(Seq::empty()),
        };
        proof {
            assert(ranges_of(t.effects@) =~= Seq::<(u64, u64)>::empty());
        }
        Some(t)
    }

    /// Decides the commit of `r` and, when it is due, advances the checkpoint
    /// to its end version. The caller writes the effects of `r` and the new
    /// checkpoint to the store as one transaction. A result whose versions
    /// were committed already changes nothing, so a retried commit never
    /// writes effects twice.
    pub fn commit(&mut self, r: &ProcessingResult) -> (res: Result<CommitOutcome, PersistError>)
        requires
            old(self).wf(),
        ensures
            final(self).wf(),
            final(self).spec_name() == old(self).spec_name(),
            final(self).spec_initial() == old(self).spec_initial(),
            match old(self).commit_error(*r) {
                Some(e) => res == Err::<CommitOutcome, PersistError>(e) && *final(self) == *old(self),
                None => if old(self).is_committed(*r) {
                    res == Ok::<CommitOutcome, PersistError>(CommitOutcome::AlreadyCommitted)
                        && *final(self) == *old(self)
                } else {
                    &&& res == Ok::<CommitOutcome, PersistError>(CommitOutcome::Committed)
                    &&& final(self).spec_checkpoint() == Some(r.end_version)
                    &&& final(self).spec_effects() == old(self).spec_effects().push(*r)
                },
            },
    {
        if r.start_version > r.end_version {
            return Err(
                PersistError::InvalidRange {
                    start_version: r.start_version,
                    end_version: r.end_version,
                },
            );
        }
        let expected = match self.last_success_version {
            Some(v) => {
                if r.end_version <= v {
                    return Ok(CommitOutcome::AlreadyCommitted);
                }
                v + 1
            },
            None => self.initial_version,
        };
        if r.start_version != expected {
            return Err(
                PersistError::OutOfOrder { expected_version: expected, received_version: r.start_version },
            );
        }
        let ghost old_effects = self.effects@;
        proof {
            let s = ranges_of(old_effects);
            let p = (r.start_version, r.end_version);
            assert(ranges_of(old_effects.push(*r)) =~= s.push(p));
            let t = s.push(p);
            assert forall|i: int| 0 <= i < t.len() implies #[trigger] t[i].0 == if i == 0 {
                self.initial_version as int
            } else {
                t[i - 1].1 + 1
            } by {
                if i < s.len() {
                    assert(t[i] == s[i]);
                    if i > 0 {
                        assert(t[i - 1] == s[i - 1]);
                    }
                }
            }
        }
        let end = r.end_version;
        self.effects = Ghost(self.effects@.push(*r));
        self.last_success_version = Some(end);
        Ok(CommitOutcome::Committed)
    }

    /// The last committed version, if any.
    pub fn last_success_version(&self) -> (r: Option<u64>)
        ensures
            r == self.spec_checkpoint(),
    {
        self.last_success_version
    }

    /// The version a restarted worker resumes from.
    pub fn resume_point(&self) -> (r: Option<u64>)
        ensures
            r == spec_resume_version(self.spec_checkpoint(), Some(self.spec_initial())),
    {
        resume_version(self.last_success_version, Some(self.initial_version))
    }

    /// The first version to commit when nothing was committed since the start.
    pub fn initial_version(&self) -> (r: u64)
        ensures
            r == self.spec_initial(),
    {
        self.initial_version
    }

}

/// The committed ranges of a well-formed tracker start at its initial
/// version, follow one another without a gap or a repeated version, and end
/// at its checkpoint.
pub proof fn lemma_committed_in_order(t: &ProgressTracker)
    requires
        t.wf(),
    ensures
        is_chain(ranges_of(t.spec_effects()), t.spec_initial() as int, t.spec_next()),
        t.spec_initial() <= t.spec_next(),
        forall|i: int, j: int|
            0 <= i < j < t.spec_effects().len() ==> #[trigger] ranges_of(t.spec_effects())[i].1
                < #[trigger] ranges_of(t.spec_effects())[j].0,
{
    let s = ranges_of(t.spec_effects());
    lemma_chain_ordered(s, t.spec_initial() as int, t.spec_next());
    assert forall|i: int, j: int| 0 <= i < j < t.spec_effects().len() implies #[trigger] s[i].1
        < #[trigger] s[j].0 by {
        lemma_chain_increasing(s, t.spec_initial() as int, t.spec_next(), i, j);
    }
}

/// A commit that went through is not applied a second time when it is
/// retried: in the state it left, the same result counts as committed, so
/// `commit` answers `AlreadyCommitted` and changes nothing.
pub proof fn lemma_commit_retry_idempotent(
    before: &ProgressTracker,
    after: &ProgressTracker,
    r: ProcessingResult,
)
    requires
        before.wf(),
        before.commit_error(r) is None,
        !before.is_committed(r),
        after.spec_checkpoint() == Some(r.end_version),
        after.spec_effects() == before.spec_effects().push(r),
    ensures
        after.commit_error(r) is None,
        after.is_committed(r),
        after.spec_effects().len() == before.spec_effects().len() + 1,
{
}

} // verus!
