use vstd::prelude::*;

verus! {

/// What to do with one copy job.
#[derive(Clone, Copy, Debug, PartialEq, Eq, Structural)]
pub enum CopyAction {
    /// Copy the source's bytes to the destination.
    Copy,
    /// Leave the destination alone: it exists already.
    Skip,
}

/// How one copy job ended.
#[derive(Clone, Copy, Debug, PartialEq, Eq, Structural)]
pub enum CopyOutcome {
    Copied,
    SkippedExisting,
    Failed,
}

/// An existing destination is never written to.
pub open spec fn action_for(dest_exists: bool) -> CopyAction {
    if dest_exists {
        CopyAction::Skip
    } else {
        CopyAction::Copy
    }
}

/// Decides a copy job by whether its destination exists already: an
/// existing file is skipped, whatever the source holds.
pub fn copy_action(dest_exists: bool) -> (r: CopyAction)
    ensures
        r == action_for(dest_exists),
        dest_exists ==> r == CopyAction::Skip,
{
    if dest_exists {
        CopyAction::Skip
    } else {
        CopyAction::Copy
    }
}

/// How many files a copy pass has copied, out of how many jobs it has done.
#[derive(Clone, Copy, Debug, PartialEq, Eq, Structural)]
pub struct CopyTally {
    pub copied: usize,
    pub total: usize,
}

/// Whether a job that ended so adds to the files copied.
pub open spec fn counts_as_copied(o: CopyOutcome) -> bool {
    o == CopyOutcome::Copied
}

impl CopyTally {
    pub fn new() -> (r: Self)
        ensures
            r.copied == 0,
            r.total == 0,
    {
        CopyTally { copied: 0, total: 0 }
    }

    /// Counts one finished job; only a copy that took place adds to the
    /// files copied.
    pub fn record(&mut self, outcome: CopyOutcome)
        requires
            old(self).copied <= old(self).total < usize::MAX,
        ensures
            final(self).total == old(self).total + 1,
            final(self).copied == old(self).copied + if counts_as_copied(outcome) {
                1int
            } else {
                0int
            },
            final(self).copied <= final(self).total,
    {
        self.total = self.total + 1;
        if let CopyOutcome::Copied = outcome {
            self.copied = self.copied + 1;
        }
    }
}

/// The outcome of a job whose copy, where one is made, succeeds.
pub open spec fn outcome_of(a: CopyAction) -> CopyOutcome {
    match a {
        CopyAction::Copy => CopyOutcome::Copied,
        CopyAction::Skip => CopyOutcome::SkippedExisting,
    }
}

/// A copy pass over the destinations `dests`, in order, starting from the
/// files in `existing`, where every copy made succeeds: the files that exist
/// afterwards, and how many were copied.
pub open spec fn copy_pass(dests: Seq<Seq<char>>, existing: Set<Seq<char>>) -> (Set<Seq<char>>, nat)
    decreases dests.len(),
{
    if dests.len() == 0 {
        (existing, 0)
    } else {
        let (files, n) = copy_pass(dests.drop_last(), existing);
        let d = dests.last();
        let o = outcome_of(action_for(files.contains(d)));
        (
            if o == CopyOutcome::Copied {
                files.insert(d)
            } else {
                files
            },
            n + if counts_as_copied(o) {
                1nat
            } else {
                0nat
            },
        )
    }
}

proof fn lemma_pass_creates_all(dests: Seq<Seq<char>>, existing: Set<Seq<char>>)
    ensures
        existing.subset_of(copy_pass(dests, existing).0),
        forall|i: int| 0 <= i < dests.len() ==> copy_pass(dests, existing).0.contains(#[trigger] dests[i]),
    decreases dests.len(),
{
    if dests.len() > 0 {
        let init = dests.drop_last();
        lemma_pass_creates_all(init, existing);
        assert forall|i: int| 0 <= i < dests.len() implies copy_pass(dests, existing).0.contains(
            #[trigger] dests[i],
        ) by {
            if i < dests.len() - 1 {
                assert(init[i] == dests[i]);
            }
        }
    }
}

proof fn lemma_pass_over_existing(dests: Seq<Seq<char>>, existing: Set<Seq<char>>)
    requires
        forall|i: int| 0 <= i < dests.len() ==> existing.contains(#[trigger] dests[i]),
    ensures
        copy_pass(dests, existing) == (existing, 0nat),
    decreases dests.len(),
{
    if dests.len() > 0 {
        let init = dests.drop_last();
        assert forall|i: int| 0 <= i < init.len() implies existing.contains(#[trigger] init[i]) by {
            assert(init[i] == dests[i]);
        }
        lemma_pass_over_existing(init, existing);
        assert(existing.contains(dests[dests.len() - 1]));
    }
}

/// Organizing twice is organizing once: a second copy pass over the same
/// jobs finds every destination in place, copies nothing, and leaves the
/// destination tree as the first pass left it.
pub proof fn lemma_second_pass_copies_nothing(dests: Seq<Seq<char>>, existing: Set<Seq<char>>)
    ensures
        copy_pass(dests, copy_pass(dests, existing).0) == (copy_pass(dests, existing).0, 0nat),
{
    lemma_pass_creates_all(dests, existing);
    lemma_pass_over_existing(dests, copy_pass(dests, existing).0);
}

} // verus!
