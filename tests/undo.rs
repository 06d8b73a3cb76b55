use causal_undo::{UndoError, UndoManager};
use loro::LoroDoc;

fn doc() -> LoroDoc {
    let doc = LoroDoc::new();
    doc.set_peer_id(1).unwrap();
    doc
}

fn edit(doc: &LoroDoc, s: &str) {
    let text = doc.get_text("text");
    let len = text.len_unicode();
    text.insert(len, s).unwrap();
    doc.commit();
}

#[test]
fn undo_redo_stack_discipline() {
    let doc = doc();
    let mut m = UndoManager::new(&doc);
    assert_eq!(m.peer(), 1);
    assert!(!m.can_undo());
    edit(&doc, "a");
    edit(&doc, "b");
    edit(&doc, "c");
    assert_eq!(m.undo_count(), 3);
    assert_eq!(m.undo(), Ok(true));
    assert_eq!(m.undo_count(), 2);
    assert_eq!(m.redo_count(), 1);
    assert!(m.can_redo());
    assert_eq!(doc.get_text("text").to_string(), "ab");
    assert_eq!(m.redo(), Ok(true));
    assert_eq!(m.undo_count(), 3);
    assert_eq!(m.redo_count(), 0);
    assert_eq!(doc.get_text("text").to_string(), "abc");
}

#[test]
fn undo_on_empty_stack_does_nothing() {
    let doc = doc();
    let mut m = UndoManager::new(&doc);
    assert_eq!(m.undo(), Ok(false));
    assert_eq!(m.redo(), Ok(false));
}

#[test]
fn edits_within_merge_interval_coalesce() {
    let doc = doc();
    let mut m = UndoManager::new(&doc);
    m.set_merge_interval(100_000);
    edit(&doc, "a");
    edit(&doc, "b");
    assert_eq!(m.undo_count(), 1);
}

#[test]
fn excluded_origin_is_not_recorded() {
    let doc = doc();
    let mut m = UndoManager::new(&doc);
    m.add_exclude_origin_prefix("sys:");
    edit(&doc, "a");
    assert_eq!(m.undo_count(), 1);
    doc.set_next_commit_origin("sys:sync");
    edit(&doc, "b");
    assert_eq!(m.undo_count(), 1);
}

#[test]
fn group_collapses_edits_into_one_entry() {
    let doc = doc();
    let mut m = UndoManager::new(&doc);
    edit(&doc, "x");
    assert_eq!(m.group_start(), Ok(()));
    assert_eq!(m.group_start(), Err(UndoError::GroupAlreadyStarted));
    edit(&doc, "a");
    edit(&doc, "b");
    edit(&doc, "c");
    m.group_end();
    assert_eq!(m.undo_count(), 2);
    assert_eq!(m.undo(), Ok(true));
    assert_eq!(doc.get_text("text").to_string(), "x");
}

#[test]
fn max_depth_evicts_oldest() {
    let doc = doc();
    let mut m = UndoManager::new(&doc);
    m.set_max_undo_steps(2);
    edit(&doc, "a");
    edit(&doc, "b");
    edit(&doc, "c");
    edit(&doc, "d");
    assert_eq!(m.undo_count(), 2);
    assert_eq!(m.undo(), Ok(true));
    assert_eq!(m.undo(), Ok(true));
    assert_eq!(m.undo(), Ok(false));
    assert_eq!(doc.get_text("text").to_string(), "ab");
}
