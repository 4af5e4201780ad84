//! The mirror of the on-chain tree: it applies the events of the chain in
//! order, keeps track of how far it has come, and answers proof queries.

use vstd::prelude::*;
use crate::error::TreeError;
use crate::field::Field;
use crate::history::{
    lemma_newest_with_root, newest, newest_with_root, recorded, RootHistory, Snapshot,
};
use crate::merkle::{
    capacity, is_first_index, merkle_root, proof_path, MAX_DEPTH,
};
use crate::path::fold_path;
use crate::server::InclusionProof;
use crate::tree::Tree;

verus! {

/// What a query against an unknown root is told.
pub const UNKNOWN_ROOT_NOTICE: &'static str =
    "the root is unknown or has left the window of recent roots";

/// What an event does to the tree.
#[derive(Clone, Copy, Debug, PartialEq, Eq, Structural)]
pub enum EventKind {
    /// A leaf is appended.
    Insert,
    /// A leaf is set to zero.
    Delete,
}

/// One mutation of the on-chain tree.
#[derive(Clone, Copy, Debug)]
pub struct TreeEvent {
    /// The block that holds the event.
    pub block_number: u64,
    pub kind: EventKind,
    /// The index of the leaf that the event assigns or deletes.
    pub leaf_index: u64,
    /// The value that an insertion assigns. A deletion does not read it.
    pub value: Field,
}

/// The state of the mirror as plain mathematics.
pub ghost struct Mirror {
    /// The depth of the tree.
    pub depth: nat,
    /// The values of the leaves assigned so far.
    pub leaves: Seq<nat>,
    /// The recorded tree versions, oldest first.
    pub history: Seq<Snapshot>,
    /// The greatest number of recorded versions.
    pub window: nat,
    /// Whether the mirror was level with the head of the chain when it last
    /// compared.
    pub synced: bool,
    /// Whether the mirror was ever level with the head of the chain.
    pub caught_up: bool,
    /// The last block whose events are all applied.
    pub latest_synced_block: u64,
}

impl Mirror {
    /// The tree as it is now.
    pub open spec fn current(self) -> Snapshot {
        Snapshot { depth: self.depth, leaves: self.leaves }
    }

    /// The root of the tree as it is now.
    pub open spec fn root(self) -> nat {
        merkle_root(self.leaves, self.depth)
    }
}

/// The mirror before any event: the tree is empty and is the one recorded
/// version, and the mirror counts as behind the chain.
pub open spec fn initial(depth: nat, window: nat, start_block: u64) -> Mirror {
    Mirror {
        depth,
        leaves: Seq::empty(),
        history: recorded(Seq::empty(), window, Snapshot { depth, leaves: Seq::empty() }),
        window,
        synced: false,
        caught_up: false,
        latest_synced_block: start_block,
    }
}

/// Why the mirror refuses an event, if it does.
pub open spec fn event_error(mirror: Mirror, event: TreeEvent) -> Option<TreeError> {
    if event.block_number < mirror.latest_synced_block {
        Some(TreeError::StreamCorruption)
    } else {
        match event.kind {
            EventKind::Insert => {
                if event.leaf_index != mirror.leaves.len() {
                    Some(TreeError::StreamCorruption)
                } else if mirror.leaves.len() >= capacity(mirror.depth) {
                    Some(TreeError::OutOfCapacity)
                } else {
                    None
                }
            },
            EventKind::Delete => {
                if event.leaf_index >= mirror.leaves.len() {
                    Some(TreeError::InvalidIndex)
                } else {
                    None
                }
            },
        }
    }
}

/// The leaves after an event.
pub open spec fn leaves_after(leaves: Seq<nat>, event: TreeEvent) -> Seq<nat> {
    match event.kind {
        EventKind::Insert => leaves.push(event.value@),
        EventKind::Delete => leaves.update(event.leaf_index as int, 0),
    }
}

/// The mirror after an event that it accepts: the tree is changed, the new
/// version is recorded if the root has changed, and the mirror counts as
/// behind the chain until it compares with the head again.
pub open spec fn applied(mirror: Mirror, event: TreeEvent) -> Mirror {
    let leaves = leaves_after(mirror.leaves, event);
    let after = Snapshot { depth: mirror.depth, leaves };
    Mirror {
        leaves,
        history: if after.root() != mirror.root() {
            recorded(mirror.history, mirror.window, after)
        } else {
            mirror.history
        },
        synced: false,
        latest_synced_block: event.block_number,
        ..mirror
    }
}

/// The tree version that a query is answered from: the current one where no
/// root is given, else the newest recorded version with the given root.
pub open spec fn resolved(mirror: Mirror, root: Option<Field>) -> Option<Snapshot> {
    match root {
        None => Some(mirror.current()),
        Some(r) => match newest_with_root(mirror.history, r@) {
            Some(i) => Some(mirror.history[i]),
            None => None,
        },
    }
}

/// Whether `answer` is the answer of the mirror to a query for the proof of
/// a commitment: the proof of the first leaf with the commitment in the
/// version that the query resolves to, with the root of that version and
/// without a message; or nothing, where the query resolves to no version or
/// the version does not hold the commitment. Zero is held nowhere.
pub open spec fn is_answer(
    mirror: Mirror,
    identity_commitment: Field,
    root: Option<Field>,
    answer: Option<InclusionProof>,
) -> bool {
    match resolved(mirror, root) {
        Some(shot) if identity_commitment@ != 0 && shot.leaves.contains(identity_commitment@) => {
            &&& answer matches Some(found)
            &&& found.root@ == shot.root()
            &&& found.proof@ == proof_path(
                shot.leaves,
                shot.depth,
                first_index(shot.leaves, identity_commitment@),
            )
            &&& found.message is None
        },
        _ => answer is None,
    }
}

/// The first index at which `leaves` holds `value`, where it holds it.
pub open spec fn first_index(leaves: Seq<nat>, value: nat) -> nat {
    choose|index: nat| is_first_index(leaves, value, index)
}

/// The mirror of the on-chain tree. Its view is a [`Mirror`].
pub struct WorldTree {
    tree: Tree,
    history: RootHistory,
    synced: bool,
    caught_up: bool,
    latest_synced_block: u64,
}

impl View for WorldTree {
    type V = Mirror;

    closed spec fn view(&self) -> Mirror {
        Mirror {
            depth: self.tree.depth() as nat,
            leaves: self.tree@,
            history: self.history@,
            window: self.history.window() as nat,
            synced: self.synced,
            caught_up: self.caught_up,
            latest_synced_block: self.latest_synced_block,
        }
    }
}

impl WorldTree {
    /// A mirror with an empty tree of the given depth, which has applied the
    /// events up to `start_block` and keeps at most `window` tree versions.
    /// The empty tree is the first recorded version.
    pub fn new(depth: usize, window: usize, start_block: u64) -> (world_tree: WorldTree)
        requires
            depth <= MAX_DEPTH,
        ensures
            world_tree@ == initial(depth as nat, window as nat, start_block),
    {
        let tree = Tree::new(depth);
        let mut history = RootHistory::new(window);
        history.record(tree.snapshot());
        WorldTree { tree, history, synced: false, caught_up: false, latest_synced_block: start_block }
    }

    /// The root of the tree as it is now.
    pub fn root(&self) -> (root: Field)
        ensures
            root@ == self@.root(),
    {
        self.tree.root()
    }

    /// Whether the mirror was level with the head of the chain when it last
    /// compared.
    pub fn is_synced(&self) -> (synced: bool)
        ensures
            synced == self@.synced,
    {
        self.synced
    }

    /// Whether the mirror was ever level with the head of the chain.
    pub fn has_caught_up(&self) -> (caught_up: bool)
        ensures
            caught_up == self@.caught_up,
    {
        self.caught_up
    }

    /// The last block whose events are all applied.
    pub fn latest_synced_block(&self) -> (block: u64)
        ensures
            block == self@.latest_synced_block,
    {
        self.latest_synced_block
    }

    /// Applies the next event of the chain.
    ///
    /// An event from a block before the last applied one, or an insertion at
    /// another index than the next free one, is refused as a corrupt stream;
    /// an insertion into a full tree and a deletion of a leaf that was never
    /// assigned are refused with the error of the tree. A refused event
    /// changes nothing. An accepted event first marks the mirror as behind
    /// the chain and then changes the tree. The result is the new root where
    /// the root has changed, for those who wait for root changes.
    pub fn apply_event(&mut self, event: &TreeEvent) -> (res: Result<Option<Field>, TreeError>)
        ensures
            match event_error(old(self)@, *event) {
                Some(e) => res == Err::<Option<Field>, TreeError>(e) && final(self)@ == old(self)@,
                None => {
                    &&& final(self)@ == applied(old(self)@, *event)
                    &&& res matches Ok(published)
                    &&& if final(self)@.root() != old(self)@.root() {
                        published matches Some(root) && root@ == final(self)@.root()
                    } else {
                        published is None
                    }
                },
            },
    {
        if event.block_number < self.latest_synced_block {
            return Err(TreeError::StreamCorruption);
        }
        let before = self.tree.root();
        match event.kind {
            EventKind::Insert => {
                if event.leaf_index != self.tree.len() {
                    return Err(TreeError::StreamCorruption);
                }
                if self.tree.len() >= self.tree.capacity() {
                    return Err(TreeError::OutOfCapacity);
                }
                self.synced = false;
                match self.tree.insert(event.value) {
                    Ok(_) => {},
                    Err(e) => {
                        return Err(e);
                    },
                }
            },
            EventKind::Delete => {
                if event.leaf_index >= self.tree.len() {
                    return Err(TreeError::InvalidIndex);
                }
                self.synced = false;
                match self.tree.delete(event.leaf_index) {
                    Ok(()) => {},
                    Err(e) => {
                        return Err(e);
                    },
                }
            },
        }
        self.latest_synced_block = event.block_number;
        let after = self.tree.root();
        proof {
            Field::lemma_view_injective(before, after);
        }
        if after != before {
            self.history.record(self.tree.snapshot());
            Ok(Some(after))
        } else {
            Ok(None)
        }
    }

    /// Notes that every event up to `processed_to` is applied, and compares
    /// that block with the head of the chain. The mirror counts as synced
    /// exactly if the two are equal. A block before the last applied one is
    /// refused as a corrupt stream and changes nothing.
    pub fn mark_polled(&mut self, processed_to: u64, chain_head: u64) -> (res: Result<
        bool,
        TreeError,
    >)
        ensures
            match res {
                Ok(synced) => {
                    &&& processed_to >= old(self)@.latest_synced_block
                    &&& synced == (processed_to == chain_head)
                    &&& final(self)@ == (Mirror {
                        synced,
                        caught_up: old(self)@.caught_up || synced,
                        latest_synced_block: processed_to,
                        ..old(self)@
                    })
                },
                Err(e) => {
                    &&& e == TreeError::StreamCorruption
                    &&& processed_to < old(self)@.latest_synced_block
                    &&& final(self)@ == old(self)@
                },
            },
    {
        if processed_to < self.latest_synced_block {
            return Err(TreeError::StreamCorruption);
        }
        let synced = processed_to == chain_head;
        self.latest_synced_block = processed_to;
        self.synced = synced;
        if synced {
            self.caught_up = true;
        }
        Ok(synced)
    }

    /// The notice for a query against a root that no recorded version has:
    /// the root is unknown, or it has left the window.
    pub fn unknown_root_notice(&self, root: Option<Field>) -> (notice: Option<String>)
        ensures
            notice is Some <==> root is Some && resolved(self@, root) is None,
            notice matches Some(text) ==> text@ == UNKNOWN_ROOT_NOTICE@,
    {
        match root {
            Some(r) if self.history.lookup(r).is_none() => Some(UNKNOWN_ROOT_NOTICE.to_owned()),
            _ => None,
        }
    }

    /// The inclusion proof of a commitment.
    ///
    /// The proof is made from the current tree where no root is given, else
    /// from the newest recorded version with the given root. There is no
    /// proof where no recorded version has that root, and none where the
    /// version does not hold the commitment; zero, which marks an empty leaf,
    /// is held nowhere. Otherwise the result names the root of the version
    /// and carries the path of the first leaf with the commitment, which
    /// leads from the commitment to that root.
    pub fn get_inclusion_proof(&self, identity_commitment: Field, root: Option<Field>) -> (res:
        Option<InclusionProof>)
        ensures
            is_answer(self@, identity_commitment, root, res),
            res matches Some(found) ==> fold_path(identity_commitment@, found.proof@)
                == found.root@,
            res matches Some(found) ==> (root matches Some(r) ==> found.root@ == r@),
    {
        match root {
            None => proof_in(&self.tree, identity_commitment),
            Some(r) => {
                proof {
                    lemma_newest_with_root(self@.history, r@);
                }
                match self.history.lookup(r) {
                    Some(tree) => proof_in(tree, identity_commitment),
                    None => None,
                }
            },
        }
    }
}

/// The inclusion proof of a commitment in one tree version.
fn proof_in(tree: &Tree, identity_commitment: Field) -> (res: Option<InclusionProof>)
    ensures
        if identity_commitment@ != 0 && tree@.contains(identity_commitment@) {
            &&& res matches Some(found)
            &&& found.root@ == tree.as_snapshot().root()
            &&& found.proof@ == proof_path(
                tree@,
                tree.depth() as nat,
                first_index(tree@, identity_commitment@),
            )
            &&& found.message is None
        } else {
            res is None
        },
        res matches Some(found) ==> fold_path(identity_commitment@, found.proof@) == found.root@,
{
    let index = match tree.position(identity_commitment) {
        Some(index) => index,
        None => {
            return None;
        },
    };
    let path = match tree.prove(index) {
        Ok(path) => path,
        Err(_) => {
            return None;
        },
    };
    proof {
        let other = first_index(tree@, identity_commitment@);
        assert(is_first_index(tree@, identity_commitment@, other));
        assert(other == index) by {
            if other < index {
                assert(tree@[other as int] != identity_commitment@);
            }
            if index < other {
                assert(tree@[index as int] != identity_commitment@);
            }
        }
    }
    Some(InclusionProof::new(tree.root(), path, None))
}


/// The mirror after a run of events, each applied in turn. Where the mirror
/// accepts every event of the run, this is the state it ends in.
pub open spec fn replayed(mirror: Mirror, events: Seq<TreeEvent>) -> Mirror
    decreases events.len(),
{
    if events.len() == 0 {
        mirror
    } else {
        applied(replayed(mirror, events.drop_last()), events.last())
    }
}

/// Whether the history is within its window and, unless the window is empty,
/// ends with a version that has the current root. A new mirror is so, and
/// events keep it so.
pub open spec fn root_is_recorded(mirror: Mirror) -> bool {
    &&& mirror.history.len() <= mirror.window
    &&& mirror.window > 0 ==> mirror.history.len() > 0 && mirror.history.last().root()
        == mirror.root()
}

/// The history of a new mirror is within its window and ends with the
/// current root.
pub proof fn lemma_initial_records_root(depth: nat, window: nat, start_block: u64)
    ensures
        root_is_recorded(initial(depth, window, start_block)),
{
}

/// An event leaves the history within its window and ending with the
/// current root.
pub proof fn lemma_applied_keeps_root_recorded(mirror: Mirror, event: TreeEvent)
    requires
        root_is_recorded(mirror),
    ensures
        root_is_recorded(applied(mirror, event)),
        applied(mirror, event).window == mirror.window,
        applied(mirror, event).depth == mirror.depth,
{
}

/// A run of events leaves the history within its window and ending with the
/// current root.
pub proof fn lemma_replayed_keeps_root_recorded(mirror: Mirror, events: Seq<TreeEvent>)
    requires
        root_is_recorded(mirror),
    ensures
        root_is_recorded(replayed(mirror, events)),
        replayed(mirror, events).window == mirror.window,
        replayed(mirror, events).depth == mirror.depth,
    decreases events.len(),
{
    if events.len() > 0 {
        lemma_replayed_keeps_root_recorded(mirror, events.drop_last());
        lemma_applied_keeps_root_recorded(replayed(mirror, events.drop_last()), events.last());
    }
}

/// After a run of events, the root that the tree had after the first `k` of
/// them is the root of an entry that lies no further from the end of the
/// history than the number of events since.
proof fn lemma_root_within_reach(mirror: Mirror, events: Seq<TreeEvent>, k: int) -> (i: int)
    requires
        root_is_recorded(mirror),
        0 <= k <= events.len(),
        events.len() - k < mirror.window,
    ensures
        0 <= i < replayed(mirror, events).history.len(),
        replayed(mirror, events).history.len() - i <= events.len() - k + 1,
        replayed(mirror, events).history[i].root() == replayed(mirror, events.take(k)).root(),
    decreases events.len(),
{
    let now = replayed(mirror, events);
    lemma_replayed_keeps_root_recorded(mirror, events);
    if events.len() == k {
        assert(events.take(k) =~= events);
        now.history.len() - 1
    } else {
        let earlier = events.drop_last();
        assert(earlier.take(k) =~= events.take(k));
        let before = replayed(mirror, earlier);
        lemma_replayed_keeps_root_recorded(mirror, earlier);
        let j = lemma_root_within_reach(mirror, earlier, k);
        if now.root() == before.root() {
            j
        } else if before.history.len() < before.window {
            j
        } else {
            j - 1
        }
    }
}

/// A root of the recent past still resolves: after a run of events that is
/// no longer than the window, the root that the tree had after any one of
/// them is the root of a recorded version, so a query against it is answered
/// from a version with exactly that root.
pub proof fn lemma_recent_root_resolves(mirror: Mirror, events: Seq<TreeEvent>, k: int)
    requires
        root_is_recorded(mirror),
        events.len() <= mirror.window,
        1 <= k <= events.len(),
    ensures
        newest_with_root(
            replayed(mirror, events).history,
            replayed(mirror, events.take(k)).root(),
        ) matches Some(i) && replayed(mirror, events).history[i].root() == replayed(
            mirror,
            events.take(k),
        ).root(),
{
    let i = lemma_root_within_reach(mirror, events, k);
    lemma_newest_with_root(
        replayed(mirror, events).history,
        replayed(mirror, events.take(k)).root(),
    );
}


/// The tree versions that a run of events gives rise to, oldest first: the
/// tree after each event that changes the root.
pub open spec fn versions(mirror: Mirror, events: Seq<TreeEvent>) -> Seq<Snapshot>
    decreases events.len(),
{
    if events.len() == 0 {
        Seq::empty()
    } else {
        let before = replayed(mirror, events.drop_last());
        let after = applied(before, events.last());
        if after.root() != before.root() {
            versions(mirror, events.drop_last()).push(after.current())
        } else {
            versions(mirror, events.drop_last())
        }
    }
}

/// After a run of events the history holds the newest of what it held
/// before, followed by the versions that the run gave rise to.
pub proof fn lemma_history_after_replay(mirror: Mirror, events: Seq<TreeEvent>)
    requires
        mirror.history.len() <= mirror.window,
    ensures
        replayed(mirror, events).window == mirror.window,
        replayed(mirror, events).depth == mirror.depth,
        replayed(mirror, events).history == newest(
            mirror.history + versions(mirror, events),
            mirror.window,
        ),
    decreases events.len(),
{
    if events.len() == 0 {
        assert(mirror.history + versions(mirror, events) =~= mirror.history);
    } else {
        let earlier = events.drop_last();
        lemma_history_after_replay(mirror, earlier);
        let before = replayed(mirror, earlier);
        let after = applied(before, events.last());
        if after.root() != before.root() {
            let all = mirror.history + versions(mirror, earlier);
            assert(all.push(after.current()) =~= mirror.history + versions(mirror, events));
            assert(newest(newest(all, mirror.window).push(after.current()), mirror.window)
                =~= newest(all.push(after.current()), mirror.window));
        }
    }
}

/// A root of the distant past no longer resolves: once a run of events has
/// given rise to at least as many versions as the window holds, a query
/// against a root that none of the newest of them has finds no version.
pub proof fn lemma_old_root_is_unknown(mirror: Mirror, events: Seq<TreeEvent>, root: Field)
    requires
        mirror.history.len() <= mirror.window <= versions(mirror, events).len(),
        forall|j: int|
            versions(mirror, events).len() - mirror.window <= j < versions(mirror, events).len()
                ==> (#[trigger] versions(mirror, events)[j]).root() != root@,
    ensures
        resolved(replayed(mirror, events), Some(root)) is None,
{
    lemma_history_after_replay(mirror, events);
    let recent = versions(mirror, events);
    let history = replayed(mirror, events).history;
    assert(history =~= recent.subrange(recent.len() - mirror.window, recent.len() as int));
    lemma_newest_with_root(history, root@);
    match newest_with_root(history, root@) {
        Some(i) => {
            assert(history[i] == recent[recent.len() - mirror.window + i]);
        },
        None => {},
    }
}

} // verus!
