//! The bounded window of recent roots and the tree versions behind them.

use std::collections::VecDeque;
use vstd::prelude::*;
use crate::field::Field;
use crate::merkle::merkle_root;
use crate::tree::Tree;

verus! {

/// What a tree held at one moment: its depth and the values of its leaves.
pub ghost struct Snapshot {
    pub depth: nat,
    pub leaves: Seq<nat>,
}

impl Snapshot {
    /// The root of the tree at that moment.
    pub open spec fn root(self) -> nat {
        merkle_root(self.leaves, self.depth)
    }
}

/// The last `window` items of a sequence, or all of it if it has no more.
pub open spec fn newest(all: Seq<Snapshot>, window: nat) -> Seq<Snapshot> {
    if all.len() <= window {
        all
    } else {
        all.subrange(all.len() - window, all.len() as int)
    }
}

/// The history after one more snapshot was recorded: the snapshot is
/// appended, and the oldest entry leaves if the window is exceeded.
pub open spec fn recorded(history: Seq<Snapshot>, window: nat, snapshot: Snapshot) -> Seq<
    Snapshot,
> {
    newest(history.push(snapshot), window)
}

/// The history after a batch of snapshots was recorded, oldest first.
pub open spec fn recorded_all(history: Seq<Snapshot>, window: nat, batch: Seq<Snapshot>) -> Seq<
    Snapshot,
>
    decreases batch.len(),
{
    if batch.len() == 0 {
        history
    } else {
        recorded(recorded_all(history, window, batch.drop_last()), window, batch.last())
    }
}

/// The position of the newest entry with the given root, if there is one.
pub open spec fn newest_with_root(history: Seq<Snapshot>, root: nat) -> Option<int>
    decreases history.len(),
{
    if history.len() == 0 {
        None
    } else if history.last().root() == root {
        Some(history.len() - 1)
    } else {
        newest_with_root(history.drop_last(), root)
    }
}

/// What `newest_with_root` finds: an entry with the root after which no
/// entry has it, or nothing where no entry has it.
pub proof fn lemma_newest_with_root(history: Seq<Snapshot>, root: nat)
    ensures
        match newest_with_root(history, root) {
            Some(i) => {
                &&& 0 <= i < history.len()
                &&& history[i].root() == root
                &&& forall|j: int| i < j < history.len() ==> history[j].root() != root
            },
            None => forall|j: int| 0 <= j < history.len() ==> history[j].root() != root,
        },
    decreases history.len(),
{
    if history.len() > 0 && history.last().root() != root {
        let older = history.drop_last();
        lemma_newest_with_root(older, root);
        assert forall|j: int| 0 <= j < older.len() implies #[trigger] older[j] == history[j] by {}
        match newest_with_root(older, root) {
            Some(i) => {
                assert forall|j: int| i < j < history.len() implies history[j].root() != root by {
                    if j < older.len() {
                        assert(older[j].root() != root);
                    }
                }
            },
            None => {
                assert forall|j: int| 0 <= j < history.len() implies history[j].root()
                    != root by {
                    if j < older.len() {
                        assert(older[j].root() != root);
                    }
                }
            },
        }
    }
}

/// Recording a batch keeps exactly the newest entries of the old history
/// followed by the batch.
pub proof fn lemma_recorded_all(history: Seq<Snapshot>, window: nat, batch: Seq<Snapshot>)
    requires
        history.len() <= window,
    ensures
        recorded_all(history, window, batch) == newest(history + batch, window),
    decreases batch.len(),
{
    if batch.len() == 0 {
        assert(history + batch =~= history);
    } else {
        let before = batch.drop_last();
        lemma_recorded_all(history, window, before);
        assert((history + before).push(batch.last()) =~= history + batch);
        assert(newest(newest(history + before, window).push(batch.last()), window) =~= newest(
            history + batch,
            window,
        ));
    }
}

/// A batch that fits in the window is still there, whole and in order, once
/// it has been recorded: it forms the end of the history.
pub proof fn lemma_recent_batch_kept(history: Seq<Snapshot>, window: nat, batch: Seq<Snapshot>)
    requires
        history.len() <= window,
        batch.len() <= window,
    ensures
        recorded_all(history, window, batch).len() >= batch.len(),
        recorded_all(history, window, batch).subrange(
            recorded_all(history, window, batch).len() - batch.len(),
            recorded_all(history, window, batch).len() as int,
        ) == batch,
{
    lemma_recorded_all(history, window, batch);
    let after = recorded_all(history, window, batch);
    assert(after.subrange(after.len() - batch.len(), after.len() as int) =~= batch);
}

/// Once a batch at least as long as the window has been recorded, the
/// history holds the newest entries of the batch and nothing older.
pub proof fn lemma_old_entries_evicted(history: Seq<Snapshot>, window: nat, batch: Seq<Snapshot>)
    requires
        history.len() <= window <= batch.len(),
    ensures
        recorded_all(history, window, batch) == batch.subrange(
            batch.len() - window,
            batch.len() as int,
        ),
{
    lemma_recorded_all(history, window, batch);
    assert(newest(history + batch, window) =~= batch.subrange(
        batch.len() - window,
        batch.len() as int,
    ));
}

/// A bounded, ordered record of recent tree versions, oldest first.
///
/// Its view is the sequence of the snapshots it holds.
pub struct RootHistory {
    window: usize,
    entries: VecDeque<Tree>,
}

impl View for RootHistory {
    type V = Seq<Snapshot>;

    closed spec fn view(&self) -> Seq<Snapshot> {
        Seq::new(self.entries@.len(), |i: int| self.entries@[i].as_snapshot())
    }
}

impl RootHistory {
    #[verifier::type_invariant]
    spec fn inv(self) -> bool {
        self.entries@.len() <= self.window
    }

    /// The greatest number of entries, in specifications.
    pub closed spec fn spec_window(&self) -> usize {
        self.window
    }

    /// An empty history that keeps at most `window` entries.
    pub fn new(window: usize) -> (history: RootHistory)
        ensures
            history.window() == window,
            history@ == Seq::<Snapshot>::empty(),
    {
        let history = RootHistory { window, entries: VecDeque::new() };
        assert(history@ =~= Seq::<Snapshot>::empty());
        history
    }

    /// The greatest number of entries.
    #[verifier::when_used_as_spec(spec_window)]
    pub fn window(&self) -> (window: usize)
        ensures
            window == self.window(),
            self@.len() <= window,
    {
        proof {
            use_type_invariant(self);
        }
        self.window
    }

    /// The number of entries.
    pub fn len(&self) -> (len: usize)
        ensures
            len == self@.len(),
            len <= self.window(),
    {
        proof {
            use_type_invariant(self);
        }
        self.entries.len()
    }

    /// Appends a tree version. Where the window is full, the oldest entry
    /// leaves first.
    pub fn record(&mut self, snapshot: Tree)
        ensures
            final(self).window() == old(self).window(),
            final(self)@ == recorded(old(self)@, old(self).window() as nat, snapshot.as_snapshot()),
    {
        proof {
            use_type_invariant(&*self);
        }
        let ghost before = self@;
        if self.window == 0 {
            assert(recorded(before, 0, snapshot.as_snapshot()) =~= before);
            return ;
        }
        let mut entries: VecDeque<Tree> = VecDeque::new();
        std::mem::swap(&mut self.entries, &mut entries);
        if entries.len() == self.window {
            let _ = entries.pop_front();
        }
        entries.push_back(snapshot);
        self.entries = entries;
        assert(self@ =~= recorded(before, self.window as nat, snapshot.as_snapshot()));
    }

    /// The newest recorded tree version with the given root.
    pub fn lookup(&self, root: Field) -> (res: Option<&Tree>)
        ensures
            match res {
                Some(tree) => newest_with_root(self@, root@) matches Some(i) && self@[i]
                    == tree.as_snapshot(),
                None => newest_with_root(self@, root@) is None,
            },
    {
        let mut i: usize = self.entries.len();
        assert(self@.take(i as int) =~= self@);
        while i > 0
            invariant
                i <= self.entries@.len(),
                newest_with_root(self@, root@) == newest_with_root(self@.take(i as int), root@),
            decreases i,
        {
            i = i - 1;
            let tree = &self.entries[i];
            let found = tree.root();
            proof {
                Field::lemma_view_injective(found, root);
                assert(self@.take(i + 1).drop_last() =~= self@.take(i as int));
                assert(self@.take(i + 1).last() == tree.as_snapshot());
            }
            if found == root {
                return Some(tree);
            }
        }
        None
    }
}

} // verus!
