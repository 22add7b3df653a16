//! The problem store: an append-only accumulator of reported problems.
//! Every problem keeps a stable index; resolving hides it from iteration,
//! and iteration can collapse problems that share a deduplication key.

use vstd::prelude::*;

use crate::config_editor::{apply_spec, fixes_spec, ConfigEditor};
use crate::problem::{dedup_eq, Problem, ProblemList};

verus! {

pub struct ProblemStoreEntry {
    pub problem: Problem,
    pub resolved: bool,
}

/// The accumulator.  Entries are only ever appended; `aborted` tells the
/// driver to tear the build down.
pub struct ProblemStore {
    pub entries: Vec<ProblemStoreEntry>,
    pub aborted: bool,
}

/// How many of the first `i` entries are still unresolved.
pub open spec fn unresolved_count(es: Seq<ProblemStoreEntry>, i: int) -> int
    decreases i,
{
    if i <= 0 {
        0int
    } else {
        unresolved_count(es, i - 1) + if es[i - 1].resolved {
            0int
        } else {
            1int
        }
    }
}

/// The indices of the unresolved entries among the first `i`, in order.
pub open spec fn unresolved_idxs(es: Seq<ProblemStoreEntry>, i: int) -> Seq<usize>
    decreases i,
{
    if i <= 0 {
        Seq::empty()
    } else {
        let rest = unresolved_idxs(es, i - 1);
        if es[i - 1].resolved {
            rest
        } else {
            rest.push((i - 1) as usize)
        }
    }
}

/// Whether an earlier unresolved entry carries the same deduplication key.
pub open spec fn dup_before(es: Seq<ProblemStoreEntry>, i: int) -> bool {
    exists|j: int|
        0 <= j < i && !(#[trigger] es[j]).resolved && dedup_eq(es[j].problem, es[i].problem)
}

/// The indices surviving deduplication among the first `i`.
pub open spec fn dedup_idxs(es: Seq<ProblemStoreEntry>, i: int) -> Seq<usize>
    decreases i,
{
    if i <= 0 {
        Seq::empty()
    } else {
        let rest = dedup_idxs(es, i - 1);
        if !es[i - 1].resolved && !dup_before(es, i - 1) {
            rest.push((i - 1) as usize)
        } else {
            rest
        }
    }
}

/// Every index the deduplicated listing names is a valid entry.
pub proof fn lemma_dedup_idxs_bounds(es: Seq<ProblemStoreEntry>, i: int)
    ensures
        forall|t: int|
            0 <= t < dedup_idxs(es, i).len() ==> (#[trigger] dedup_idxs(es, i)[t]) < i,
    decreases i,
{
    if i > 0 {
        lemma_dedup_idxs_bounds(es, i - 1);
        assert forall|t: int|
            0 <= t < dedup_idxs(es, i).len() implies (#[trigger] dedup_idxs(es, i)[t]) < i by {
            if t < dedup_idxs(es, i - 1).len() {
                assert(dedup_idxs(es, i)[t] == dedup_idxs(es, i - 1)[t]);
            }
        }
    }
}

impl ProblemStore {
    pub fn new() -> (r: ProblemStore)
        ensures
            r.entries@.len() == 0,
            !r.aborted,
    {
        ProblemStore { entries: Vec::new(), aborted: false }
    }

    /// Appends every problem of the list, unresolved; the first one's
    /// index comes back.
    pub fn add(&mut self, problems: ProblemList) -> (r: usize)
        ensures
            r == old(self).entries@.len(),
            final(self).aborted == old(self).aborted,
            final(self).entries@ == old(self).entries@ + problems.problems@.map_values(
                |p: Problem| ProblemStoreEntry { problem: p, resolved: false },
            ),
    {
        let r = self.entries.len();
        let ghost incoming = problems.problems@;
        let mut rest = problems;
        while rest.problems.len() > 0
            invariant
                self.aborted == old(self).aborted,
                rest.problems@.len() <= incoming.len(),
                self.entries@ == old(self).entries@ + incoming.take(
                    incoming.len() - rest.problems@.len(),
                ).map_values(|p: Problem| ProblemStoreEntry { problem: p, resolved: false }),
                rest.problems@ == incoming.skip(incoming.len() - rest.problems@.len()),
            decreases rest.problems@.len(),
        {
            let ghost done = incoming.len() - rest.problems@.len();
            proof {
                assert(rest.problems@ == incoming.skip(done));
            }
            let p = rest.problems.remove(0);
            proof {
                assert(p == incoming.skip(done)[0]);
                assert(incoming.skip(done)[0] == incoming[done]);
                assert(rest.problems@ =~= incoming.skip(done).remove(0));
            }
            self.entries.push(ProblemStoreEntry { problem: p, resolved: false });
            proof {
                assert(self.entries@ =~= old(self).entries@ + incoming.take(done + 1).map_values(
                    |p2: Problem| ProblemStoreEntry { problem: p2, resolved: false },
                ));
                assert(rest.problems@ =~= incoming.skip(done + 1));
            }
        }
        proof {
            assert(incoming.take(incoming.len() as int) =~= incoming);
        }
        r
    }

    /// How many problems are still unresolved.
    pub fn len(&self) -> (r: usize)
        ensures
            r as int == unresolved_count(self.entries@, self.entries@.len() as int),
    {
        let mut count: usize = 0;
        let mut i: usize = 0;
        while i < self.entries.len()
            invariant
                i <= self.entries@.len(),
                count as int == unresolved_count(self.entries@, i as int),
                count <= i,
            decreases self.entries@.len() - i,
        {
            if !self.entries[i].resolved {
                count = count + 1;
            }
            i = i + 1;
        }
        count
    }

    pub fn is_empty(&self) -> (r: bool)
        ensures
            r == (unresolved_count(self.entries@, self.entries@.len() as int) == 0),
    {
        self.len() == 0
    }

    /// The indices of the unresolved problems, oldest first.
    pub fn iterate_with_duplicates(&self) -> (r: Vec<usize>)
        ensures
            r@ == unresolved_idxs(self.entries@, self.entries@.len() as int),
    {
        let mut out: Vec<usize> = Vec::new();
        let mut i: usize = 0;
        while i < self.entries.len()
            invariant
                i <= self.entries@.len(),
                out@ == unresolved_idxs(self.entries@, i as int),
            decreases self.entries@.len() - i,
        {
            if !self.entries[i].resolved {
                out.push(i);
                proof {
                    assert(out@ =~= unresolved_idxs(self.entries@, i + 1));
                }
            } else {
                proof {
                    assert(out@ =~= unresolved_idxs(self.entries@, i + 1));
                }
            }
            i = i + 1;
        }
        out
    }

    /// The indices of the unresolved problems with duplicates collapsed:
    /// an entry is kept when no earlier unresolved entry carries the same
    /// deduplication key.
    pub fn deduplicated_indices(&self) -> (r: Vec<usize>)
        ensures
            r@ == dedup_idxs(self.entries@, self.entries@.len() as int),
    {
        let mut out: Vec<usize> = Vec::new();
        let mut i: usize = 0;
        while i < self.entries.len()
            invariant
                i <= self.entries@.len(),
                out@ == dedup_idxs(self.entries@, i as int),
            decreases self.entries@.len() - i,
        {
            if !self.entries[i].resolved {
                let mut seen = false;
                let mut j: usize = 0;
                while j < i
                    invariant
                        i < self.entries@.len(),
                        j <= i,
                        seen == exists|k: int|
                            0 <= k < j && !(#[trigger] self.entries@[k]).resolved && dedup_eq(
                                self.entries@[k].problem,
                                self.entries@[i as int].problem,
                            ),
                    decreases i - j,
                {
                    if !self.entries[j].resolved && crate::problem::deduplication_matches(
                        &self.entries[j].problem,
                        &self.entries[i].problem,
                    ) {
                        seen = true;
                    }
                    j = j + 1;
                }
                if !seen {
                    out.push(i);
                    proof {
                        assert(!dup_before(self.entries@, i as int));
                        assert(out@ =~= dedup_idxs(self.entries@, i + 1));
                    }
                } else {
                    proof {
                        assert(dup_before(self.entries@, i as int));
                        assert(out@ =~= dedup_idxs(self.entries@, i + 1));
                    }
                }
            } else {
                proof {
                    assert(out@ =~= dedup_idxs(self.entries@, i + 1));
                }
            }
            i = i + 1;
        }
        out
    }

    /// Marks one problem as dealt with.
    pub fn resolve(&mut self, index: usize)
        requires
            index < old(self).entries@.len(),
        ensures
            final(self).aborted == old(self).aborted,
            final(self).entries@ == old(self).entries@.update(
                index as int,
                ProblemStoreEntry {
                    resolved: true,
                    ..old(self).entries@[index as int]
                },
            ),
    {
        let entry = crate::textutil::vec_mut_ref(&mut self.entries, index);
        entry.resolved = true;
    }

    /// Resolves one problem and appends its follow-ups.
    pub fn replace(&mut self, index: usize, replacement: ProblemList)
        requires
            index < old(self).entries@.len(),
        ensures
            final(self).aborted == old(self).aborted,
            final(self).entries@ == old(self).entries@.update(
                index as int,
                ProblemStoreEntry {
                    resolved: true,
                    ..old(self).entries@[index as int]
                },
            ) + replacement.problems@.map_values(
                |p: Problem| ProblemStoreEntry { problem: p, resolved: false },
            ),
    {
        self.resolve(index);
        let _ = self.add(replacement);
    }

    /// Resolves every problem whose only proposed edit would change the
    /// configuration in no way.
    pub fn resolve_problems_with_empty_diff(&mut self, editor: &ConfigEditor)
        ensures
            final(self).aborted == old(self).aborted,
            final(self).entries@.len() == old(self).entries@.len(),
            forall|i: int|
                0 <= i < old(self).entries@.len() ==> {
                    &&& (#[trigger] final(self).entries@[i]).problem == old(self).entries@[
                        i
                    ].problem
                    &&& final(self).entries@[i].resolved == (old(self).entries@[i].resolved || (
                    fixes_spec(old(self).entries@[i].problem).len() == 1 && apply_spec(
                        fixes_spec(old(self).entries@[i].problem)[0],
                        crate::config_editor::line_views(editor.lines@),
                    ) == crate::config_editor::line_views(editor.lines@)))
                },
    {
        let n = self.entries.len();
        let mut i: usize = 0;
        while i < n
            invariant
                n == self.entries@.len(),
                n == old(self).entries@.len(),
                i <= n,
                self.aborted == old(self).aborted,
                forall|k: int|
                    i <= k < n ==> #[trigger] self.entries@[k] == old(self).entries@[k],
                forall|k: int|
                    0 <= k < i ==> {
                        &&& (#[trigger] self.entries@[k]).problem == old(self).entries@[
                            k
                        ].problem
                        &&& self.entries@[k].resolved == (old(self).entries@[k].resolved || (
                        fixes_spec(old(self).entries@[k].problem).len() == 1 && apply_spec(
                            fixes_spec(old(self).entries@[k].problem)[0],
                            crate::config_editor::line_views(editor.lines@),
                        ) == crate::config_editor::line_views(editor.lines@)))
                    },
            decreases n - i,
        {
            let fixes = crate::config_editor::fixes_for_problem(&self.entries[i].problem);
            if fixes.len() == 1 {
                if crate::config_editor::edit_is_noop(&fixes[0], editor) {
                    let entry = crate::textutil::vec_mut_ref(&mut self.entries, i);
                    entry.resolved = true;
                }
            }
            i = i + 1;
        }
    }

    /// Tears the run down: everything pending is dropped and the driver is
    /// told to stop the build.
    pub fn abort(&mut self)
        ensures
            final(self).aborted,
            final(self).entries@.len() == old(self).entries@.len(),
            forall|i: int|
                0 <= i < old(self).entries@.len() ==> (#[trigger] final(self).entries@[i]).problem
                    == old(self).entries@[i].problem && final(self).entries@[i].resolved,
    {
        self.aborted = true;
        let n = self.entries.len();
        let mut i: usize = 0;
        while i < n
            invariant
                n == self.entries@.len(),
                n == old(self).entries@.len(),
                i <= n,
                self.aborted,
                forall|k: int|
                    i <= k < n ==> #[trigger] self.entries@[k] == old(self).entries@[k],
                forall|k: int|
                    0 <= k < i ==> (#[trigger] self.entries@[k]).problem == old(self).entries@[
                        k
                    ].problem && self.entries@[k].resolved,
            decreases n - i,
        {
            let entry = crate::textutil::vec_mut_ref(&mut self.entries, i);
            entry.resolved = true;
            i = i + 1;
        }
    }
}

} // verus!
