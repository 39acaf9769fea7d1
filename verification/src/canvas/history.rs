//! Snapshot-based undo history: what each edit changed, the undo and redo
//! stacks with their bounds, and grouped edits that undo as one.

use vstd::prelude::*;

use std::collections::VecDeque;

use crate::canvas::document::LayerId;
use crate::canvas::error::CoreError;

verus! {

/// Most undo entries any history keeps, whatever it is configured with.
pub const HARD_MAX_HISTORY_ENTRIES: usize = 1_024;

/// Bounds for snapshot-based undo history. A zero memory budget keeps no
/// history without rejecting edits.
#[derive(Clone, Copy, Debug, PartialEq, Eq)]
pub struct HistoryConfig {
    pub max_entries: usize,
    pub memory_budget_bytes: usize,
}

impl Default for HistoryConfig {
    fn default() -> (config: Self)
        ensures
            config.max_entries == 256,
            config.memory_budget_bytes == 256 * 1024 * 1024,
    {
        HistoryConfig { max_entries: 256, memory_budget_bytes: 256 * 1024 * 1024 }
    }
}

impl HistoryConfig {
    /// The configuration with its entry bound capped at
    /// `HARD_MAX_HISTORY_ENTRIES`.
    pub fn normalized(self) -> (config: Self)
        ensures
            config == normalized_spec(self),
    {
        let max_entries = if self.max_entries <= HARD_MAX_HISTORY_ENTRIES {
            self.max_entries
        } else {
            HARD_MAX_HISTORY_ENTRIES
        };
        HistoryConfig { max_entries, memory_budget_bytes: self.memory_budget_bytes }
    }
}

/// Normalizing twice changes nothing more than normalizing once.
pub proof fn law_normalized_is_idempotent(config: HistoryConfig)
    ensures
        normalized_spec(normalized_spec(config)) == normalized_spec(config),
        normalized_spec(config).max_entries <= HARD_MAX_HISTORY_ENTRIES,
{
}

/// What `HistoryConfig::normalized` returns.
pub open spec fn normalized_spec(config: HistoryConfig) -> HistoryConfig {
    HistoryConfig {
        max_entries: if config.max_entries <= HARD_MAX_HISTORY_ENTRIES {
            config.max_entries
        } else {
            HARD_MAX_HISTORY_ENTRIES
        },
        memory_budget_bytes: config.memory_budget_bytes,
    }
}


/// What one edit, or one group of edits, changed: the generation it
/// produced, which parts of the document changed, and the layers touched.
#[derive(Clone, Debug, PartialEq, Eq)]
pub struct ChangeSet {
    pub generation: u64,
    pub document_changed: bool,
    pub structure_changed: bool,
    pub canvas_changed: bool,
    pub timeline_changed: bool,
    pub navigation_changed: bool,
    pub selection_changed: bool,
    pub changed_layers: Vec<LayerId>,
}

impl Default for ChangeSet {
    fn default() -> (changes: Self)
        ensures
            changes.generation == 0,
            !changes.document_changed,
            !changes.structure_changed,
            !changes.canvas_changed,
            !changes.timeline_changed,
            !changes.navigation_changed,
            !changes.selection_changed,
            changes.changed_layers@.len() == 0,
    {
        ChangeSet {
            generation: 0,
            document_changed: false,
            structure_changed: false,
            canvas_changed: false,
            timeline_changed: false,
            navigation_changed: false,
            selection_changed: false,
            changed_layers: Vec::new(),
        }
    }
}

/// `acc` followed by the layers of `other` it does not hold yet, each
/// once, in the order they first appear.
pub open spec fn merged_layers(acc: Seq<LayerId>, other: Seq<LayerId>) -> Seq<LayerId>
    decreases other.len(),
{
    if other.len() == 0 {
        acc
    } else {
        let merged = merged_layers(acc, other.drop_last());
        if merged.contains(other.last()) {
            merged
        } else {
            merged.push(other.last())
        }
    }
}

/// The change set of `first` followed by `second`: a part changed if it
/// changed in either, the layers of both are listed once each, and the
/// generation is the later one.
pub open spec fn merged_spec(first: ChangeSet, second: ChangeSet) -> (bool, bool, bool, bool, bool, bool, u64) {
    (
        first.document_changed || second.document_changed,
        first.structure_changed || second.structure_changed,
        first.canvas_changed || second.canvas_changed,
        first.timeline_changed || second.timeline_changed,
        first.navigation_changed || second.navigation_changed,
        first.selection_changed || second.selection_changed,
        if first.generation >= second.generation {
            first.generation
        } else {
            second.generation
        },
    )
}

/// The flags and generation of a change set, in the order of `merged_spec`.
pub open spec fn summary(changes: ChangeSet) -> (bool, bool, bool, bool, bool, bool, u64) {
    (
        changes.document_changed,
        changes.structure_changed,
        changes.canvas_changed,
        changes.timeline_changed,
        changes.navigation_changed,
        changes.selection_changed,
        changes.generation,
    )
}

fn contains_layer(ids: &Vec<LayerId>, id: LayerId) -> (r: bool)
    ensures
        r == ids@.contains(id),
{
    let mut i: usize = 0;
    while i < ids.len()
        invariant
            i <= ids@.len(),
            forall|j: int| 0 <= j < i ==> ids@[j] != id,
        decreases ids@.len() - i,
    {
        if ids[i].0 == id.0 {
            return true;
        }
        i = i + 1;
    }
    false
}

impl ChangeSet {
    /// Adds the changes of `other`, made after these.
    pub fn merge(&mut self, other: &Self)
        ensures
            summary(*final(self)) == merged_spec(*old(self), *other),
            final(self).changed_layers@ == merged_layers(old(self).changed_layers@, other.changed_layers@),
    {
        self.document_changed = self.document_changed || other.document_changed;
        self.structure_changed = self.structure_changed || other.structure_changed;
        self.canvas_changed = self.canvas_changed || other.canvas_changed;
        self.timeline_changed = self.timeline_changed || other.timeline_changed;
        self.navigation_changed = self.navigation_changed || other.navigation_changed;
        self.selection_changed = self.selection_changed || other.selection_changed;
        let ghost flags = *self;
        let ghost start = old(self).changed_layers@;
        let ghost all = other.changed_layers@;
        let mut i: usize = 0;
        while i < other.changed_layers.len()
            invariant
                i <= all.len(),
                all == other.changed_layers@,
                self.changed_layers@ == merged_layers(start, all.take(i as int)),
                summary(*self) == summary(flags),
            decreases all.len() - i,
        {
            let id = other.changed_layers[i];
            proof {
                assert(all.take(i + 1).drop_last() =~= all.take(i as int));
                assert(all.take(i + 1).last() == id);
            }
            if !contains_layer(&self.changed_layers, id) {
                self.changed_layers.push(id);
            }
            i = i + 1;
        }
        proof {
            assert(all.take(all.len() as int) =~= all);
        }
        if other.generation > self.generation {
            self.generation = other.generation;
        }
    }
}

/// Merging loses no layer and adds none: the merged list holds exactly the
/// layers of both, and a layer new to `acc` appears once.
pub proof fn law_merge_keeps_every_layer(acc: Seq<LayerId>, other: Seq<LayerId>)
    ensures
        merged_layers(acc, other).to_set() == acc.to_set().union(other.to_set()),
        merged_layers(acc, other).len() >= acc.len(),
        merged_layers(acc, other).take(acc.len() as int) == acc,
        forall|i: int, j: int|
            acc.len() <= i < j < merged_layers(acc, other).len() ==> merged_layers(acc, other)[i]
                != merged_layers(acc, other)[j],
    decreases other.len(),
{
    if other.len() > 0 {
        law_merge_keeps_every_layer(acc, other.drop_last());
        let merged = merged_layers(acc, other.drop_last());
        assert(other.to_set() =~= other.drop_last().to_set().insert(other.last())) by {
            assert(other =~= other.drop_last().push(other.last()));
            other.drop_last().lemma_push_to_set_commute(other.last());
        }
        if !merged.contains(other.last()) {
            merged.lemma_push_to_set_commute(other.last());
            assert(merged.push(other.last()).take(acc.len() as int) =~= merged.take(acc.len() as int));
        } else {
            assert(merged.to_set().contains(other.last()));
        }
        assert(merged_layers(acc, other).to_set() =~= acc.to_set().union(other.to_set()));
    } else {
        assert(other.to_set() =~= Set::<LayerId>::empty());
        assert(acc.to_set().union(other.to_set()) =~= acc.to_set());
        assert(acc.take(acc.len() as int) =~= acc);
    }
}

/// One undoable step: the snapshots before and after it, what it changed,
/// and the label of the group it came from.
pub struct HistoryEntry<D> {
    pub before: D,
    pub after: D,
    pub changes: ChangeSet,
    pub label: Option<String>,
}

/// A group of edits in progress: the snapshot it started from, the latest
/// snapshot an edit in it produced, and their changes merged.
pub struct PendingGroup<D> {
    pub before: D,
    pub after: Option<D>,
    pub changes: ChangeSet,
    pub label: Option<String>,
}

/// Undo and redo stacks of snapshots of type `D`, kept within a
/// configured number of entries and a memory budget, with at most one
/// group of edits in progress.
pub struct History<D> {
    config: HistoryConfig,
    undo: VecDeque<HistoryEntry<D>>,
    redo: Vec<HistoryEntry<D>>,
    memory_bytes: usize,
    group: Option<PendingGroup<D>>,
}

/// Whether `measure`, given stacks holding these entries, may report more
/// than `budget` bytes.
pub open spec fn measured_over<D, F: Fn(&VecDeque<HistoryEntry<D>>, &Vec<HistoryEntry<D>>) -> usize>(
    measure: F,
    undo: Seq<HistoryEntry<D>>,
    redo: Seq<HistoryEntry<D>>,
    budget: usize,
) -> bool {
    exists|u: VecDeque<HistoryEntry<D>>, r: Vec<HistoryEntry<D>>, bytes: usize|
        u@ == undo && r@ == redo && #[trigger] call_ensures(measure, (&u, &r), bytes) && bytes > budget
}

/// The undo entries kept after pushing onto `entries` and dropping the `k`
/// oldest: at most `max_entries` remain, and each dropped entry went
/// because there were too many or because the memory measured with it was
/// over budget.
pub open spec fn trimmed<D, F: Fn(&VecDeque<HistoryEntry<D>>, &Vec<HistoryEntry<D>>) -> usize>(
    entries: Seq<HistoryEntry<D>>,
    k: int,
    kept: Seq<HistoryEntry<D>>,
    redo: Seq<HistoryEntry<D>>,
    measure: F,
    config: HistoryConfig,
) -> bool {
    &&& 0 <= k <= entries.len()
    &&& kept == entries.skip(k)
    &&& kept.len() <= config.max_entries
    &&& forall|j: int|
        0 <= j < k ==> entries.len() - j > config.max_entries || measured_over(
            measure,
            #[trigger] entries.skip(j),
            redo,
            config.memory_budget_bytes,
        )
}

/// The history after one undo: the newest undo entry moves onto the redo
/// stack.
pub open spec fn undone<D>(undo: Seq<HistoryEntry<D>>, redo: Seq<HistoryEntry<D>>) -> (
    Seq<HistoryEntry<D>>,
    Seq<HistoryEntry<D>>,
) {
    (undo.drop_last(), redo.push(undo.last()))
}

/// The history after one redo: the newest redo entry moves back onto the
/// undo stack.
pub open spec fn redone<D>(undo: Seq<HistoryEntry<D>>, redo: Seq<HistoryEntry<D>>) -> (
    Seq<HistoryEntry<D>>,
    Seq<HistoryEntry<D>>,
) {
    (undo.push(redo.last()), redo.drop_last())
}

/// Undoing then redoing restores both stacks, and so does redoing then
/// undoing.
pub proof fn law_undo_then_redo_restores<D>(undo: Seq<HistoryEntry<D>>, redo: Seq<HistoryEntry<D>>)
    ensures
        undo.len() > 0 ==> redone(undone(undo, redo).0, undone(undo, redo).1) == (undo, redo),
        redo.len() > 0 ==> undone(redone(undo, redo).0, redone(undo, redo).1) == (undo, redo),
{
    if undo.len() > 0 {
        assert(undo.drop_last().push(undo.last()) =~= undo);
        assert(redo.push(undo.last()).drop_last() =~= redo);
    }
    if redo.len() > 0 {
        assert(redo.drop_last().push(redo.last()) =~= redo);
        assert(undo.push(redo.last()).drop_last() =~= undo);
    }
}

/// After a push and its trimming, the newest undo entry is the one just
/// pushed, unless nothing was kept.
pub proof fn law_newest_entry_is_the_pushed_one<D, F: Fn(&VecDeque<HistoryEntry<D>>, &Vec<HistoryEntry<D>>) -> usize>(
    entries: Seq<HistoryEntry<D>>,
    k: int,
    kept: Seq<HistoryEntry<D>>,
    redo: Seq<HistoryEntry<D>>,
    measure: F,
    config: HistoryConfig,
)
    requires
        trimmed(entries, k, kept, redo, measure, config),
    ensures
        kept.len() > 0 ==> kept.last() == entries.last(),
{
}

/// With an unlimited memory budget, trimming keeps exactly the newest
/// `max_entries` entries (all of them when there are fewer).
pub proof fn law_unlimited_budget_keeps_the_newest<D, F: Fn(&VecDeque<HistoryEntry<D>>, &Vec<HistoryEntry<D>>) -> usize>(
    entries: Seq<HistoryEntry<D>>,
    k: int,
    kept: Seq<HistoryEntry<D>>,
    redo: Seq<HistoryEntry<D>>,
    measure: F,
    config: HistoryConfig,
)
    requires
        trimmed(entries, k, kept, redo, measure, config),
        config.memory_budget_bytes == usize::MAX,
    ensures
        kept.len() == if entries.len() <= config.max_entries {
            entries.len() as int
        } else {
            config.max_entries as int
        },
        kept == entries.skip(entries.len() - kept.len()),
{
    if k > 0 {
        let j = k - 1;
        assert(entries.len() - j > config.max_entries || measured_over(
            measure,
            entries.skip(j),
            redo,
            config.memory_budget_bytes,
        ));
        if measured_over(measure, entries.skip(j), redo, config.memory_budget_bytes) {
            let (u, r, bytes) = choose|u: VecDeque<HistoryEntry<D>>, r: Vec<HistoryEntry<D>>, bytes: usize|
                u@ == entries.skip(j) && r@ == redo && #[trigger] call_ensures(measure, (&u, &r), bytes)
                    && bytes > config.memory_budget_bytes;
            assert(false);
        }
    }
}

impl<D> History<D> {
    pub closed spec fn config_spec(&self) -> HistoryConfig {
        self.config
    }

    pub closed spec fn undo_spec(&self) -> Seq<HistoryEntry<D>> {
        self.undo@
    }

    pub closed spec fn redo_spec(&self) -> Seq<HistoryEntry<D>> {
        self.redo@
    }

    pub closed spec fn group_spec(&self) -> Option<PendingGroup<D>> {
        self.group
    }

    /// The memory the stacks were last measured to take.
    pub closed spec fn memory_spec(&self) -> usize {
        self.memory_bytes
    }

    /// The configuration is normalized, and the two stacks together hold
    /// no more entries than it allows.
    pub closed spec fn well_formed(&self) -> bool {
        &&& self.config == normalized_spec(self.config)
        &&& self.undo@.len() + self.redo@.len() <= self.config.max_entries
    }

    /// An empty history under the normalized configuration.
    pub fn new(config: HistoryConfig) -> (history: Self)
        ensures
            history.well_formed(),
            history.config_spec() == normalized_spec(config),
            history.undo_spec().len() == 0,
            history.redo_spec().len() == 0,
            history.group_spec() is None,
            history.memory_spec() == 0,
    {
        History {
            config: config.normalized(),
            undo: VecDeque::new(),
            redo: Vec::new(),
            memory_bytes: 0,
            group: None,
        }
    }

    pub fn can_undo(&self) -> (r: bool)
        ensures
            r == (self.undo_spec().len() > 0),
    {
        self.undo.len() > 0
    }

    pub fn can_redo(&self) -> (r: bool)
        ensures
            r == (self.redo_spec().len() > 0),
    {
        self.redo.len() > 0
    }

    pub fn is_group_active(&self) -> (r: bool)
        ensures
            r == self.group_spec() is Some,
    {
        self.group.is_some()
    }

    /// The entry an undo would revert.
    pub fn next_undo(&self) -> (entry: Option<&HistoryEntry<D>>)
        ensures
            self.undo_spec().len() == 0 ==> entry is None,
            self.undo_spec().len() > 0 ==> entry == Some(&self.undo_spec().last()),
    {
        let n = self.undo.len();
        if n == 0 {
            None
        } else {
            Some(&self.undo[n - 1])
        }
    }

    /// The entry a redo would reapply.
    pub fn next_redo(&self) -> (entry: Option<&HistoryEntry<D>>)
        ensures
            self.redo_spec().len() == 0 ==> entry is None,
            self.redo_spec().len() > 0 ==> entry == Some(&self.redo_spec().last()),
    {
        let n = self.redo.len();
        if n == 0 {
            None
        } else {
            Some(&self.redo[n - 1])
        }
    }

    /// Commits an undo: the newest undo entry moves onto the redo stack.
    pub fn commit_undo(&mut self)
        requires
            old(self).well_formed(),
            old(self).undo_spec().len() > 0,
        ensures
            final(self).well_formed(),
            (final(self).undo_spec(), final(self).redo_spec()) == undone(
                old(self).undo_spec(),
                old(self).redo_spec(),
            ),
            final(self).config_spec() == old(self).config_spec(),
            final(self).group_spec() == old(self).group_spec(),
            final(self).memory_spec() == old(self).memory_spec(),
    {
        match self.undo.pop_back() {
            Some(entry) => self.redo.push(entry),
            None => {},
        }
        proof {
            assert(self.undo@ =~= old(self).undo@.drop_last());
        }
    }

    /// Commits a redo: the newest redo entry moves back onto the undo
    /// stack.
    pub fn commit_redo(&mut self)
        requires
            old(self).well_formed(),
            old(self).redo_spec().len() > 0,
        ensures
            final(self).well_formed(),
            (final(self).undo_spec(), final(self).redo_spec()) == redone(
                old(self).undo_spec(),
                old(self).redo_spec(),
            ),
            final(self).config_spec() == old(self).config_spec(),
            final(self).group_spec() == old(self).group_spec(),
            final(self).memory_spec() == old(self).memory_spec(),
    {
        match self.redo.pop() {
            Some(entry) => self.undo.push_back(entry),
            None => {},
        }
    }

    /// Records one edit from `before` to `after`. Inside a group the edit
    /// joins the group; otherwise the redo stack is cleared and the edit
    /// becomes the newest undo entry, the oldest entries giving way as
    /// `push_undo` describes.
    pub fn record<F: Fn(&VecDeque<HistoryEntry<D>>, &Vec<HistoryEntry<D>>) -> usize>(
        &mut self,
        before: D,
        after: D,
        changes: ChangeSet,
        measure: F,
    )
        requires
            old(self).well_formed(),
            forall|u: &VecDeque<HistoryEntry<D>>, r: &Vec<HistoryEntry<D>>| measure.requires((u, r)),
        ensures
            final(self).well_formed(),
            final(self).config_spec() == old(self).config_spec(),
            match old(self).group_spec() {
                Some(group) => {
                    &&& final(self).undo_spec() == old(self).undo_spec()
                    &&& final(self).redo_spec() == old(self).redo_spec()
                    &&& final(self).memory_spec() == old(self).memory_spec()
                    &&& final(self).group_spec() matches Some(joined)
                    &&& joined.before == group.before
                    &&& joined.after == Some(after)
                    &&& joined.label == group.label
                    &&& summary(joined.changes) == merged_spec(group.changes, changes)
                    &&& joined.changes.changed_layers@ == merged_layers(
                        group.changes.changed_layers@,
                        changes.changed_layers@,
                    )
                },
                None => {
                    &&& final(self).group_spec() is None
                    &&& final(self).redo_spec().len() == 0
                    &&& exists|k: int|
                        trimmed(
                            old(self).undo_spec().push(
                                HistoryEntry { before, after, changes, label: None },
                            ),
                            k,
                            final(self).undo_spec(),
                            final(self).redo_spec(),
                            measure,
                            final(self).config_spec(),
                        )
                    &&& final(self).undo_spec().len() > 0 ==> final(self).memory_spec()
                        <= final(self).config_spec().memory_budget_bytes
                },
            },
    {
        let mut slot: Option<PendingGroup<D>> = None;
        std::mem::swap(&mut slot, &mut self.group);
        match slot {
            Some(mut group) => {
                group.after = Some(after);
                group.changes.merge(&changes);
                self.group = Some(group);
            },
            None => {
                self.redo.clear();
                let ghost pending = self.undo@;
                let entry = HistoryEntry { before, after, changes, label: None };
                self.push_undo(entry, measure);
                proof {
                    let k = choose|k: int|
                        trimmed(pending.push(entry), k, self.undo@, self.redo@, measure, self.config);
                    assert(trimmed(old(self).undo_spec().push(entry), k, self.undo_spec(), self.redo_spec(), measure, self.config_spec()));
                }
            },
        }
    }

    /// Starts a group of edits from the snapshot `before`; refused while
    /// another group is in progress.
    pub fn begin_group(&mut self, before: D, label: Option<String>) -> (r: Result<(), CoreError>)
        requires
            old(self).well_formed(),
        ensures
            final(self).well_formed(),
            final(self).config_spec() == old(self).config_spec(),
            final(self).undo_spec() == old(self).undo_spec(),
            final(self).redo_spec() == old(self).redo_spec(),
            final(self).memory_spec() == old(self).memory_spec(),
            old(self).group_spec() is Some ==> r == Err::<(), CoreError>(CoreError::GroupAlreadyActive)
                && final(self).group_spec() == old(self).group_spec(),
            old(self).group_spec() is None ==> {
                &&& r is Ok
                &&& final(self).group_spec() matches Some(group)
                &&& group.before == before
                &&& group.after is None
                &&& group.label == label
                &&& summary(group.changes) == (false, false, false, false, false, false, 0u64)
                &&& group.changes.changed_layers@.len() == 0
            },
    {
        if self.group.is_some() {
            return Err(CoreError::GroupAlreadyActive);
        }
        self.group = Some(PendingGroup { before, after: None, changes: ChangeSet::default(), label });
        Ok(())
    }

    /// Ends the group in progress. A group that recorded edits becomes one
    /// undo entry, from the snapshot it started from to the last one an
    /// edit produced, and clears the redo stack; an empty group leaves no
    /// trace.
    pub fn end_group<F: Fn(&VecDeque<HistoryEntry<D>>, &Vec<HistoryEntry<D>>) -> usize>(
        &mut self,
        measure: F,
    ) -> (r: Result<(), CoreError>)
        requires
            old(self).well_formed(),
            forall|u: &VecDeque<HistoryEntry<D>>, r: &Vec<HistoryEntry<D>>| measure.requires((u, r)),
        ensures
            final(self).well_formed(),
            final(self).config_spec() == old(self).config_spec(),
            match old(self).group_spec() {
                None => {
                    &&& r == Err::<(), CoreError>(CoreError::NoActiveGroup)
                    &&& final(self).undo_spec() == old(self).undo_spec()
                    &&& final(self).redo_spec() == old(self).redo_spec()
                    &&& final(self).group_spec() is None
                    &&& final(self).memory_spec() == old(self).memory_spec()
                },
                Some(group) => {
                    &&& r is Ok
                    &&& final(self).group_spec() is None
                    &&& match group.after {
                        None => {
                            &&& final(self).undo_spec() == old(self).undo_spec()
                            &&& final(self).redo_spec() == old(self).redo_spec()
                            &&& final(self).memory_spec() == old(self).memory_spec()
                        },
                        Some(after) => {
                            &&& final(self).redo_spec().len() == 0
                            &&& exists|k: int|
                                trimmed(
                                    old(self).undo_spec().push(
                                        HistoryEntry {
                                            before: group.before,
                                            after,
                                            changes: group.changes,
                                            label: group.label,
                                        },
                                    ),
                                    k,
                                    final(self).undo_spec(),
                                    final(self).redo_spec(),
                                    measure,
                                    final(self).config_spec(),
                                )
                            &&& final(self).undo_spec().len() > 0 ==> final(self).memory_spec()
                                <= final(self).config_spec().memory_budget_bytes
                        },
                    }
                },
            },
    {
        let mut slot: Option<PendingGroup<D>> = None;
        std::mem::swap(&mut slot, &mut self.group);
        match slot {
            None => Err(CoreError::NoActiveGroup),
            Some(group) => {
                let PendingGroup { before, after, changes, label } = group;
                match after {
                    None => {},
                    Some(after) => {
                        self.redo.clear();
                        let ghost pending = self.undo@;
                        let entry = HistoryEntry { before, after, changes, label };
                        self.push_undo(entry, measure);
                        proof {
                            let k = choose|k: int|
                                trimmed(pending.push(entry), k, self.undo@, self.redo@, measure, self.config);
                            assert(trimmed(old(self).undo_spec().push(entry), k, self.undo_spec(), self.redo_spec(), measure, self.config_spec()));
                        }
                    },
                }
                Ok(())
            },
        }
    }

    /// Abandons the group in progress and gives back the snapshot it
    /// started from; the stacks are untouched.
    pub fn cancel_group(&mut self) -> (r: Result<D, CoreError>)
        requires
            old(self).well_formed(),
        ensures
            final(self).well_formed(),
            final(self).config_spec() == old(self).config_spec(),
            final(self).undo_spec() == old(self).undo_spec(),
            final(self).redo_spec() == old(self).redo_spec(),
            final(self).memory_spec() == old(self).memory_spec(),
            final(self).group_spec() is None,
            match old(self).group_spec() {
                None => r == Err::<D, CoreError>(CoreError::NoActiveGroup),
                Some(group) => r == Ok::<D, CoreError>(group.before),
            },
    {
        let mut slot: Option<PendingGroup<D>> = None;
        std::mem::swap(&mut slot, &mut self.group);
        match slot {
            None => Err(CoreError::NoActiveGroup),
            Some(group) => Ok(group.before),
        }
    }

    /// Pushes an undo entry, then drops the oldest entries while there are
    /// too many or the memory `measure` reports is over budget.
    fn push_undo<F: Fn(&VecDeque<HistoryEntry<D>>, &Vec<HistoryEntry<D>>) -> usize>(
        &mut self,
        entry: HistoryEntry<D>,
        measure: F,
    )
        requires
            old(self).config == normalized_spec(old(self).config),
            forall|u: &VecDeque<HistoryEntry<D>>, r: &Vec<HistoryEntry<D>>| measure.requires((u, r)),
        ensures
            final(self).config == old(self).config,
            final(self).redo == old(self).redo,
            final(self).group == old(self).group,
            exists|k: int|
                trimmed(
                    old(self).undo@.push(entry),
                    k,
                    final(self).undo@,
                    final(self).redo@,
                    measure,
                    final(self).config,
                ),
            call_ensures(measure, (&final(self).undo, &final(self).redo), final(self).memory_bytes),
            final(self).undo@.len() > 0 ==> final(self).memory_bytes
                <= final(self).config.memory_budget_bytes,
    {
        self.undo.push_back(entry);
        let ghost entries = self.undo@;
        let ghost mut k: int = 0;
        self.memory_bytes = measure(&self.undo, &self.redo);
        while self.undo.len() > 0 && (self.undo.len() > self.config.max_entries
            || self.memory_bytes > self.config.memory_budget_bytes)
            invariant
                self.config == old(self).config,
                self.redo == old(self).redo,
                self.group == old(self).group,
                forall|u: &VecDeque<HistoryEntry<D>>, r: &Vec<HistoryEntry<D>>| measure.requires((u, r)),
                entries == old(self).undo@.push(entry),
                0 <= k <= entries.len(),
                self.undo@ == entries.skip(k),
                call_ensures(measure, (&self.undo, &self.redo), self.memory_bytes),
                forall|j: int|
                    0 <= j < k ==> entries.len() - j > self.config.max_entries || measured_over(
                        measure,
                        #[trigger] entries.skip(j),
                        self.redo@,
                        self.config.memory_budget_bytes,
                    ),
            decreases self.undo@.len(),
        {
            proof {
                if entries.len() - k <= self.config.max_entries {
                    assert(measured_over(
                        measure,
                        entries.skip(k),
                        self.redo@,
                        self.config.memory_budget_bytes,
                    ));
                }
            }
            let _ = self.undo.pop_front();
            proof {
                assert(self.undo@ =~= entries.skip(k + 1));
                k = k + 1;
            }
            self.memory_bytes = measure(&self.undo, &self.redo);
        }
        proof {
            assert(trimmed(entries, k, self.undo@, self.redo@, measure, self.config));
        }
    }
}

} // verus!
