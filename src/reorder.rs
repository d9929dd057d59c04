//! Reassembles processing results that complete in any order into a
//! contiguous, strictly increasing commit stream.

use vstd::prelude::*;

verus! {

/// What processing one batch produced, for the versions `[start_version, end_version]`.
#[derive(Clone, Debug)]
pub struct ProcessingResult {
    pub start_version: u64,
    pub end_version: u64,
    pub effects: Vec<u8>,
}

/// Why a result cannot enter the buffer.
#[derive(Clone, Copy, Debug, PartialEq, Eq, Structural)]
pub enum ReorderError {
    /// `start_version` lies after `end_version`.
    InvalidRange { start_version: u64, end_version: u64 },
    /// The range reaches the last representable version, after which nothing can follow.
    VersionOverflow { end_version: u64 },
    /// The range starts before the next version to commit: it was committed already.
    AlreadyCommitted { start_version: u64, next_commit_version: u64 },
    /// The range shares a version with a result that waits in the buffer.
    Overlap { start_version: u64, end_version: u64 },
}

/// The version range of a result.
pub open spec fn range_of(r: ProcessingResult) -> (u64, u64) {
    (r.start_version, r.end_version)
}

/// The version ranges of a sequence of results.
pub open spec fn ranges_of(s: Seq<ProcessingResult>) -> Seq<(u64, u64)> {
    s.map_values(|r: ProcessingResult| range_of(r))
}

/// `s` covers the versions from `from` up to `next - 1`, range after range,
/// each range starting right after the one before it.
pub open spec fn is_chain(s: Seq<(u64, u64)>, from: int, next: int) -> bool {
    &&& forall|i: int| 0 <= i < s.len() ==> #[trigger] s[i].0 <= s[i].1
    &&& forall|i: int| 0 <= i < s.len() ==> #[trigger] s[i].0 == if i == 0 {
        from
    } else {
        s[i - 1].1 + 1
    }
    &&& next == if s.len() == 0 {
        from
    } else {
        s.last().1 + 1
    }
}

/// The two ranges share at least one version.
pub open spec fn overlaps(a: (u64, u64), b: (u64, u64)) -> bool {
    a.0 <= b.1 && b.0 <= a.1
}

/// Results that finished but wait for their predecessors, and the next
/// version to commit.
pub struct ReorderCommitBuffer {
    next_commit_version: u64,
    pending: Vec<ProcessingResult>,
    initial_version: Ghost<u64>,
    committed: Ghost<Seq<(u64, u64)>>,
}

/// A chain grows by a range that starts where it stopped.
pub proof fn lemma_chain_push(s: Seq<(u64, u64)>, from: int, next: int, p: (u64, u64))
    requires
        is_chain(s, from, next),
        p.0 == next,
        p.0 <= p.1,
    ensures
        is_chain(s.push(p), from, p.1 + 1),
{
    let t = s.push(p);
    assert forall|i: int| 0 <= i < t.len() implies #[trigger] t[i].0 == if i == 0 {
        from
    } else {
        t[i - 1].1 + 1
    } by {
        if i < s.len() {
            assert(t[i] == s[i]);
            if i > 0 {
                assert(t[i - 1] == s[i - 1]);
            }
        }
    }
}

/// Ranges of a chain come one after another: each ends before the next starts.
pub proof fn lemma_chain_increasing(s: Seq<(u64, u64)>, from: int, next: int, i: int, j: int)
    requires
        is_chain(s, from, next),
        0 <= i < j < s.len(),
    ensures
        s[i].1 < s[j].0,
        from <= s[i].0,
        s[j].1 < next,
    decreases j - i,
{
    if j == i + 1 {
        assert(s[j].0 == s[j - 1].1 + 1);
    } else {
        lemma_chain_increasing(s, from, next, i, j - 1);
        assert(s[j].0 == s[j - 1].1 + 1);
        assert(s[j - 1].0 <= s[j - 1].1);
    }
    lemma_chain_bounds(s, from, next, i);
    lemma_chain_bounds(s, from, next, j);
}

/// Each range of a chain lies within `[from, next)`.
pub proof fn lemma_chain_bounds(s: Seq<(u64, u64)>, from: int, next: int, i: int)
    requires
        is_chain(s, from, next),
        0 <= i < s.len(),
    ensures
        from <= s[i].0 <= s[i].1 < next,
{
    lemma_chain_from_below(s, from, i);
    lemma_chain_to_above(s, from, next, i);
}

/// A chain never ends before it starts.
pub proof fn lemma_chain_ordered(s: Seq<(u64, u64)>, from: int, next: int)
    requires
        is_chain(s, from, next),
    ensures
        from <= next,
{
    if s.len() > 0 {
        lemma_chain_bounds(s, from, next, s.len() - 1);
    }
}

proof fn lemma_chain_from_below(s: Seq<(u64, u64)>, from: int, i: int)
    requires
        forall|k: int| 0 <= k < s.len() ==> #[trigger] s[k].0 <= s[k].1,
        forall|k: int| 0 <= k < s.len() ==> #[trigger] s[k].0 == if k == 0 {
            from
        } else {
            s[k - 1].1 + 1
        },
        0 <= i < s.len(),
    ensures
        from <= s[i].0,
    decreases i,
{
    if i > 0 {
        lemma_chain_from_below(s, from, i - 1);
        assert(s[i - 1].0 <= s[i - 1].1);
    }
}

proof fn lemma_chain_to_above(s: Seq<(u64, u64)>, from: int, next: int, i: int)
    requires
        is_chain(s, from, next),
        0 <= i < s.len(),
    ensures
        s[i].1 < next,
    decreases s.len() - i,
{
    if i + 1 < s.len() {
        lemma_chain_to_above(s, from, next, i + 1);
        assert(s[i + 1].0 == s[i].1 + 1);
        assert(s[i + 1].0 <= s[i + 1].1);
    }
}

proof fn lemma_remove_contains(s: Seq<ProcessingResult>, i: int, x: ProcessingResult)
    requires
        0 <= i < s.len(),
    ensures
        s.contains(x) <==> (s.remove(i).contains(x) || x == s[i]),
{
    let t = s.remove(i);
    if s.contains(x) && x != s[i] {
        let k = choose|k: int| 0 <= k < s.len() && s[k] == x;
        if k < i {
            assert(t[k] == x);
        } else {
            assert(t[k - 1] == x);
        }
    }
    if t.contains(x) {
        let k = choose|k: int| 0 <= k < t.len() && t[k] == x;
        if k < i {
            assert(s[k] == x);
        } else {
            assert(s[k + 1] == x);
        }
    }
}

/// Whatever order results arrive in, a well-formed buffer has released
/// ranges that start at its initial version, follow one another without a
/// gap, never repeat a version, and end right before the next version to
/// commit.
pub proof fn lemma_commits_in_order(b: &ReorderCommitBuffer)
    requires
        b.wf(),
    ensures
        is_chain(b.spec_committed(), b.spec_initial() as int, b.spec_next() as int),
        forall|i: int, j: int|
            0 <= i < j < b.spec_committed().len() ==> #[trigger] b.spec_committed()[i].1
                < #[trigger] b.spec_committed()[j].0,
{
    assert forall|i: int, j: int|
        0 <= i < j < b.spec_committed().len() implies #[trigger] b.spec_committed()[i].1
        < #[trigger] b.spec_committed()[j].0 by {
        lemma_chain_increasing(
            b.spec_committed(),
            b.spec_initial() as int,
            b.spec_next() as int,
            i,
            j,
        );
    }
}

fn find_start(v: &Vec<ProcessingResult>, start: u64) -> (r: Option<usize>)
    ensures
        r matches Some(i) ==> i < v@.len() && v@[i as int].start_version == start,
        r is None ==> forall|k: int| 0 <= k < v@.len() ==> #[trigger] v@[k].start_version != start,
{
    let mut i: usize = 0;
    while i < v.len()
        invariant
            i <= v@.len(),
            forall|k: int| 0 <= k < i ==> #[trigger] v@[k].start_version != start,
        decreases v@.len() - i,
    {
        if v[i].start_version == start {
            return Some(i);
        }
        i = i + 1;
    }
    None
}

fn find_overlap(v: &Vec<ProcessingResult>, start: u64, end: u64) -> (r: bool)
    ensures
        r <==> exists|k: int| 0 <= k < v@.len() && overlaps(#[trigger] range_of(v@[k]), (start, end)),
{
    let mut i: usize = 0;
    while i < v.len()
        invariant
            i <= v@.len(),
            forall|k: int| 0 <= k < i ==> !overlaps(#[trigger] range_of(v@[k]), (start, end)),
        decreases v@.len() - i,
    {
        if v[i].start_version <= end && start <= v[i].end_version {
            assert(overlaps(range_of(v@[i as int]), (start, end)));
            return true;
        }
        i = i + 1;
    }
    false
}

impl ReorderCommitBuffer {
    /// The next version to commit.
    pub closed spec fn spec_next(&self) -> u64 {
        self.next_commit_version
    }

    /// The results that wait for their predecessors.
    pub closed spec fn spec_pending(&self) -> Seq<ProcessingResult> {
        self.pending@
    }

    /// The version the buffer was created at.
    pub closed spec fn spec_initial(&self) -> u64 {
        self.initial_version@
    }

    /// Every range this buffer released for commit, in the order released.
    pub closed spec fn spec_committed(&self) -> Seq<(u64, u64)> {
        self.committed@
    }

    /// Waiting results have valid, pairwise disjoint ranges that start after
    /// the next version to commit, and what was released covers exactly the
    /// versions from the initial one up to the one before the next to commit.
    pub closed spec fn wf(&self) -> bool {
        &&& forall|i: int|
            0 <= i < self.pending@.len() ==> {
                &&& self.next_commit_version < #[trigger] self.pending@[i].start_version
                &&& self.pending@[i].start_version <= self.pending@[i].end_version
                &&& self.pending@[i].end_version < u64::MAX
            }
        &&& forall|i: int, j: int|
            0 <= i < self.pending@.len() && 0 <= j < self.pending@.len() && i != j
                ==> !overlaps(
                #[trigger] range_of(self.pending@[i]),
                #[trigger] range_of(self.pending@[j]),
            )
        &&& is_chain(self.committed@, self.initial_version@ as int, self.next_commit_version as int)
    }

    /// The error `insert` gives for `r`, if any.
    pub open spec fn insert_error(&self, r: ProcessingResult) -> Option<ReorderError> {
        if r.start_version > r.end_version {
            Some(
                ReorderError::InvalidRange {
                    start_version: r.start_version,
                    end_version: r.end_version,
                },
            )
        } else if r.end_version == u64::MAX {
            Some(ReorderError::VersionOverflow { end_version: r.end_version })
        } else if r.start_version < self.spec_next() {
            Some(
                ReorderError::AlreadyCommitted {
                    start_version: r.start_version,
                    next_commit_version: self.spec_next(),
                },
            )
        } else if exists|k: int|
            0 <= k < self.spec_pending().len() && overlaps(
                #[trigger] range_of(self.spec_pending()[k]),
                range_of(r),
            )
        {
            Some(
                ReorderError::Overlap { start_version: r.start_version, end_version: r.end_version },
            )
        } else {
            None
        }
    }

    /// An empty buffer whose next version to commit is `next_commit_version`.
    pub fn new(next_commit_version: u64) -> (b: Self)
        ensures
            b.wf(),
            b.spec_next() == next_commit_version,
            b.spec_initial() == next_commit_version,
            b.spec_pending().len() == 0,
            b.spec_committed().len() == 0,
    {
        ReorderCommitBuffer {
            next_commit_version,
            pending: Vec::new(),
            initial_version: Ghost(next_commit_version),
            committed: Ghost(Seq::empty()),
        }
    }

    /// Takes in a finished result and releases, in version order, every
    /// result that can now be committed: the run of waiting results that
    /// starts at the next version to commit and continues without a gap.
    pub fn insert(&mut self, r: ProcessingResult) -> (res: Result<Vec<ProcessingResult>, ReorderError>)
        requires
            old(self).wf(),
        ensures
            final(self).wf(),
            final(self).spec_initial() == old(self).spec_initial(),
            match old(self).insert_error(r) {
                Some(e) => res == Err::<Vec<ProcessingResult>, ReorderError>(e) && *final(self)
                    == *old(self),
                None => res is Ok,
            },
            res matches Ok(out) ==> {
                &&& is_chain(
                    ranges_of(out@),
                    old(self).spec_next() as int,
                    final(self).spec_next() as int,
                )
                &&& final(self).spec_committed() == old(self).spec_committed() + ranges_of(out@)
                &&& final(self).spec_pending().len() + out@.len() == old(self).spec_pending().len() + 1
                &&& forall|x: ProcessingResult|
                    #![trigger old(self).spec_pending().push(r).contains(x)]
                    old(self).spec_pending().push(r).contains(x) <==> (final(self).spec_pending().contains(x) || out@.contains(x))
                &&& forall|i: int|
                    0 <= i < final(self).spec_pending().len()
                        ==> #[trigger] final(self).spec_pending()[i].start_version != final(self).spec_next()
            },
    {
        if r.start_version > r.end_version {
            return Err(
                ReorderError::InvalidRange {
                    start_version: r.start_version,
                    end_version: r.end_version,
                },
            );
        }
        if r.end_version == u64::MAX {
            return Err(ReorderError::VersionOverflow { end_version: r.end_version });
        }
        if r.start_version < self.next_commit_version {
            return Err(
                ReorderError::AlreadyCommitted {
                    start_version: r.start_version,
                    next_commit_version: self.next_commit_version,
                },
            );
        }
        if find_overlap(&self.pending, r.start_version, r.end_version) {
            return Err(
                ReorderError::Overlap { start_version: r.start_version, end_version: r.end_version },
            );
        }
        let ghost all = self.pending@.push(r);
        let ghost old_committed = self.committed@;
        let ghost old_next = self.next_commit_version;
        let ghost init = self.initial_version@;
        proof {
            assert forall|i: int, j: int|
                0 <= i < all.len() && 0 <= j < all.len() && i != j implies !overlaps(
                #[trigger] range_of(all[i]),
                #[trigger] range_of(all[j]),
            ) by {
                if i < self.pending@.len() && j < self.pending@.len() {
                    assert(all[i] == self.pending@[i]);
                    assert(all[j] == self.pending@[j]);
                } else if i < self.pending@.len() {
                    assert(all[i] == self.pending@[i]);
                } else {
                    assert(all[j] == self.pending@[j]);
                }
            }
        }
        self.pending.push(r);
        let mut out: Vec<ProcessingResult> = Vec::new();
        proof {
            assert(ranges_of(out@) =~= Seq::<(u64, u64)>::empty());
            assert(old_committed + ranges_of(out@) =~= old_committed);
            assert forall|x: ProcessingResult| all.contains(x) implies self.pending@.contains(x)
                || out@.contains(x) by {}
        }
        let mut done = false;
        while !done
            invariant
                self.initial_version@ == init,
                forall|i: int|
                    0 <= i < self.pending@.len() ==> {
                        &&& self.next_commit_version <= #[trigger] self.pending@[i].start_version
                        &&& self.pending@[i].start_version <= self.pending@[i].end_version
                        &&& self.pending@[i].end_version < u64::MAX
                    },
                forall|i: int, j: int|
                    0 <= i < self.pending@.len() && 0 <= j < self.pending@.len() && i != j
                        ==> !overlaps(
                        #[trigger] range_of(self.pending@[i]),
                        #[trigger] range_of(self.pending@[j]),
                    ),
                is_chain(self.committed@, init as int, self.next_commit_version as int),
                self.pending@.len() + out@.len() == all.len(),
                self.committed@ == old_committed + ranges_of(out@),
                is_chain(ranges_of(out@), old_next as int, self.next_commit_version as int),
                forall|x: ProcessingResult|
                    #![trigger all.contains(x)]
                    all.contains(x) <==> (self.pending@.contains(x) || out@.contains(x)),
                done ==> forall|i: int|
                    0 <= i < self.pending@.len() ==> #[trigger] self.pending@[i].start_version
                        != self.next_commit_version,
            decreases self.pending@.len() + if done {
                0int
            } else {
                1int
            },
        {
            match find_start(&self.pending, self.next_commit_version) {
                None => {
                    done = true;
                },
                Some(i) => {
                    let ghost oldp = self.pending@;
                    let ghost old_out = out@;
                    let p = self.pending.remove(i);
                    let ghost newp = self.pending@;
                    let new_next = p.end_version + 1;
                    proof {
                        assert forall|k: int| 0 <= k < newp.len() implies {
                            &&& new_next <= #[trigger] newp[k].start_version
                            &&& newp[k].start_version <= newp[k].end_version
                            &&& newp[k].end_version < u64::MAX
                        } by {
                            let k2 = if k < i {
                                k
                            } else {
                                k + 1
                            };
                            assert(newp[k] == oldp[k2]);
                            assert(!overlaps(range_of(oldp[k2]), range_of(oldp[i as int])));
                        }
                        assert forall|a: int, b: int|
                            0 <= a < newp.len() && 0 <= b < newp.len() && a != b implies !overlaps(
                            #[trigger] range_of(newp[a]),
                            #[trigger] range_of(newp[b]),
                        ) by {
                            let a2 = if a < i {
                                a
                            } else {
                                a + 1
                            };
                            let b2 = if b < i {
                                b
                            } else {
                                b + 1
                            };
                            assert(newp[a] == oldp[a2]);
                            assert(newp[b] == oldp[b2]);
                        }
                        lemma_chain_push(
                            self.committed@,
                            init as int,
                            self.next_commit_version as int,
                            range_of(p),
                        );
                        lemma_chain_push(
                            ranges_of(old_out),
                            old_next as int,
                            self.next_commit_version as int,
                            range_of(p),
                        );
                        assert(ranges_of(old_out.push(p)) =~= ranges_of(old_out).push(range_of(p)));
                        assert(self.committed@.push(range_of(p)) =~= old_committed + ranges_of(
                            old_out.push(p),
                        ));
                        assert forall|x: ProcessingResult| #![trigger all.contains(x)]
                            all.contains(x) <==> (newp.contains(x) || old_out.push(p).contains(x)) by {
                            lemma_remove_contains(oldp, i as int, x);
                            if old_out.push(p).contains(x) {
                                let k = choose|k: int| 0 <= k < old_out.len() + 1 && old_out.push(p)[k] == x;
                                if k < old_out.len() {
                                    assert(old_out[k] == x);
                                }
                            }
                            if old_out.contains(x) {
                                let k = choose|k: int| 0 <= k < old_out.len() && old_out[k] == x;
                                assert(old_out.push(p)[k] == x);
                            }
                            assert(old_out.push(p)[old_out.len() as int] == p);
                        }
                    }
                    self.next_commit_version = new_next;
                    self.committed = Ghost(self.committed@.push(range_of(p)));
                    out.push(p);
                },
            }
        }
        Ok(out)
    }

    /// The next version to commit.
    pub fn next_commit_version(&self) -> (r: u64)
        ensures
            r == self.spec_next(),
    {
        self.next_commit_version
    }

    /// Number of results that wait for their predecessors.
    pub fn pending_len(&self) -> (r: usize)
        ensures
            r == self.spec_pending().len(),
    {
        self.pending.len()
    }
}

} // verus!
