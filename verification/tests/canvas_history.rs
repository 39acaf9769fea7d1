use std::collections::VecDeque;

use redrob::canvas::document::LayerId;
use redrob::canvas::error::CoreError;
use redrob::canvas::history::{ChangeSet, History, HistoryConfig, HistoryEntry};

type Entries = VecDeque<HistoryEntry<u32>>;
type Redo = Vec<HistoryEntry<u32>>;

fn free(_undo: &Entries, _redo: &Redo) -> usize {
    0
}

fn one_byte_each(undo: &Entries, redo: &Redo) -> usize {
    undo.len() + redo.len()
}

fn changes(layer: u128) -> ChangeSet {
    ChangeSet { changed_layers: vec![LayerId(layer)], ..ChangeSet::default() }
}

fn unlimited(max_entries: usize) -> HistoryConfig {
    HistoryConfig { max_entries, memory_budget_bytes: usize::MAX }
}

#[test]
fn undo_and_redo_move_the_recorded_edit_between_stacks() {
    let mut history = History::new(unlimited(8));
    assert!(!history.can_undo());
    history.record(1, 2, changes(7), free);
    assert!(history.can_undo());
    assert!(!history.can_redo());
    let entry = history.next_undo().unwrap();
    assert_eq!((entry.before, entry.after), (1, 2));
    assert_eq!(entry.changes.changed_layers, vec![LayerId(7)]);
    history.commit_undo();
    assert!(!history.can_undo());
    assert!(history.can_redo());
    assert_eq!(history.next_redo().unwrap().before, 1);
    history.commit_redo();
    assert!(history.can_undo());
    assert!(!history.can_redo());
    assert_eq!(history.next_undo().unwrap().after, 2);
}

#[test]
fn recording_an_edit_clears_the_redo_stack() {
    let mut history = History::new(unlimited(8));
    history.record(1, 2, ChangeSet::default(), free);
    history.commit_undo();
    assert!(history.can_redo());
    history.record(1, 3, ChangeSet::default(), free);
    assert!(!history.can_redo());
    assert_eq!(history.next_undo().unwrap().after, 3);
}

#[test]
fn grouped_edits_undo_as_one_entry() {
    let mut history = History::new(unlimited(1));
    assert!(!history.is_group_active());
    history.begin_group(10, Some("layer properties".to_string())).unwrap();
    assert!(history.is_group_active());
    history.record(10, 11, changes(1), free);
    history.record(11, 12, changes(2), free);
    assert!(!history.can_undo());
    history.end_group(free).unwrap();
    assert!(!history.is_group_active());
    let entry = history.next_undo().unwrap();
    assert_eq!((entry.before, entry.after), (10, 12));
    assert_eq!(entry.label.as_deref(), Some("layer properties"));
    assert_eq!(entry.changes.changed_layers, vec![LayerId(1), LayerId(2)]);
    history.commit_undo();
    history.commit_redo();
    assert_eq!(history.next_undo().unwrap().after, 12);

    history.record(12, 13, ChangeSet::default(), free);
    assert!(!history.can_redo());
    history.commit_undo();
    assert!(!history.can_undo(), "max_entries=1 must evict older groups");
}

#[test]
fn an_empty_group_leaves_no_entry() {
    let mut history = History::new(unlimited(8));
    history.begin_group(5, None).unwrap();
    history.end_group(free).unwrap();
    assert!(!history.can_undo());
    assert!(!history.is_group_active());
}

#[test]
fn cancelling_a_group_gives_back_its_starting_snapshot() {
    let mut history = History::new(unlimited(8));
    history.record(0, 1, ChangeSet::default(), free);
    history.begin_group(1, None).unwrap();
    history.record(1, 2, ChangeSet::default(), free);
    assert_eq!(history.cancel_group().unwrap(), 1);
    assert!(!history.is_group_active());
    assert_eq!(history.next_undo().unwrap().after, 1);
    history.commit_undo();
    assert!(!history.can_undo());
}

#[test]
fn group_misuse_is_refused() {
    let mut history: History<u32> = History::new(unlimited(8));
    assert!(matches!(history.end_group(free), Err(CoreError::NoActiveGroup)));
    assert!(matches!(history.cancel_group(), Err(CoreError::NoActiveGroup)));
    history.begin_group(0, None).unwrap();
    assert!(matches!(history.begin_group(1, None), Err(CoreError::GroupAlreadyActive)));
    assert!(history.is_group_active());
}

#[test]
fn history_keeps_only_the_newest_entries() {
    let mut history = History::new(unlimited(2));
    for step in 0..5_u32 {
        history.record(step, step + 1, ChangeSet::default(), free);
    }
    assert_eq!(history.next_undo().unwrap().after, 5);
    history.commit_undo();
    assert_eq!(history.next_undo().unwrap().after, 4);
    history.commit_undo();
    assert!(!history.can_undo());
}

#[test]
fn zero_memory_budget_keeps_no_history() {
    let mut history = History::new(HistoryConfig { max_entries: 1_024, memory_budget_bytes: 0 });
    history.record(0, 1, ChangeSet::default(), one_byte_each);
    assert!(!history.can_undo());
}

#[test]
fn memory_budget_evicts_the_oldest_entries() {
    let mut history = History::new(HistoryConfig { max_entries: 1_024, memory_budget_bytes: 3 });
    for step in 0..6_u32 {
        history.record(step, step + 1, ChangeSet::default(), one_byte_each);
    }
    let mut kept = Vec::new();
    while let Some(entry) = history.next_undo() {
        kept.push(entry.after);
        history.commit_undo();
    }
    assert_eq!(kept, vec![6, 5, 4]);
}

#[test]
fn merging_change_sets_unions_flags_and_layers() {
    let mut first = ChangeSet {
        generation: 4,
        document_changed: true,
        changed_layers: vec![LayerId(1), LayerId(2)],
        ..ChangeSet::default()
    };
    let second = ChangeSet {
        generation: 9,
        selection_changed: true,
        changed_layers: vec![LayerId(2), LayerId(3), LayerId(3)],
        ..ChangeSet::default()
    };
    first.merge(&second);
    assert_eq!(first.generation, 9);
    assert!(first.document_changed);
    assert!(first.selection_changed);
    assert!(!first.canvas_changed);
    assert_eq!(first.changed_layers, vec![LayerId(1), LayerId(2), LayerId(3)]);
}
