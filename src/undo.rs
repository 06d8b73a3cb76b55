//! Local undo/redo: a manager that records one peer's edits to a loro document
//! in undo and redo stacks, and the metadata that stack entries carry.
//!
//! The stacks live inside loro's manager, which the document updates on every
//! commit through a subscription; they are not part of the manager's value as
//! seen here, so the counts below come with no promise beyond their type.
use std::sync::Arc;
use vstd::prelude::*;

verus! {

/// loro's undo manager, held opaquely: its stacks change on every commit of
/// the document, out of sight of this value.
#[verifier::external_body]
pub struct ManagerHandle(pub loro::UndoManager);

/// loro's document, whose local commits the manager records.
#[verifier::external_type_specification]
#[verifier::external_body]
pub struct ExLoroDoc(loro::LoroDoc);

/// loro's document value, carried in entry metadata.
#[verifier::external_type_specification]
#[verifier::external_body]
pub struct ExLoroValue(loro::LoroValue);

/// loro's stable cursor, carried in entry metadata.
#[verifier::external_type_specification]
#[verifier::external_body]
pub struct ExCursor(loro::cursor::Cursor);

/// loro's side of a boundary that a position binds to.
#[verifier::external_type_specification]
#[verifier::external_body]
pub struct ExSide(loro::cursor::Side);

/// Relies on loro's `Clone for LoroValue`, for the metadata's derived `Clone`.
pub assume_specification[ <loro::LoroValue as std::clone::Clone>::clone ](v: &loro::LoroValue) -> loro::LoroValue;

/// Why an undo-manager operation failed.
#[derive(Clone, Copy, Debug, PartialEq, Eq, Structural)]
pub enum UndoError {
    /// `group_start` was called while a group was open.
    GroupAlreadyStarted,
    /// The document could not apply or record the change.
    Document,
}

/// A position in a sequence, with the side of the boundary that it binds to.
#[derive(Clone, Copy, Debug)]
pub struct AbsolutePosition {
    pub pos: u32,
    pub side: loro::cursor::Side,
}

/// A stable cursor together with where it pointed when the entry was recorded.
#[derive(Clone, Debug)]
pub struct CursorWithPos {
    pub cursor: Arc<loro::cursor::Cursor>,
    pub pos: AbsolutePosition,
}

/// What an undo or redo entry carries for its listeners: a value and cursors.
#[derive(Clone, Debug)]
pub struct UndoItemMeta {
    pub value: loro::LoroValue,
    pub cursors: Vec<CursorWithPos>,
}

/// Relies on `loro::UndoManager::new`: a manager for the document's local peer.
#[verifier::external_body]
fn lum_new(doc: &loro::LoroDoc) -> ManagerHandle {
    ManagerHandle(loro::UndoManager::new(doc))
}

/// Relies on `loro::UndoManager::undo`.
#[verifier::external_body]
fn lum_undo(m: &mut ManagerHandle) -> Result<bool, loro::LoroError> {
    m.0.undo()
}

/// Relies on `loro::UndoManager::redo`.
#[verifier::external_body]
fn lum_redo(m: &mut ManagerHandle) -> Result<bool, loro::LoroError> {
    m.0.redo()
}

/// Relies on `loro::UndoManager::record_new_checkpoint`.
#[verifier::external_body]
fn lum_record_new_checkpoint(m: &mut ManagerHandle) -> Result<(), loro::LoroError> {
    m.0.record_new_checkpoint()
}

/// Relies on `loro::UndoManager::can_undo`.
#[verifier::external_body]
fn lum_can_undo(m: &ManagerHandle) -> bool {
    m.0.can_undo()
}

/// Relies on `loro::UndoManager::can_redo`.
#[verifier::external_body]
fn lum_can_redo(m: &ManagerHandle) -> bool {
    m.0.can_redo()
}

/// Relies on `loro::UndoManager::undo_count`.
#[verifier::external_body]
fn lum_undo_count(m: &ManagerHandle) -> usize {
    m.0.undo_count()
}

/// Relies on `loro::UndoManager::redo_count`.
#[verifier::external_body]
fn lum_redo_count(m: &ManagerHandle) -> usize {
    m.0.redo_count()
}

/// Relies on `loro::UndoManager::add_exclude_origin_prefix`.
#[verifier::external_body]
fn lum_add_exclude_origin_prefix(m: &mut ManagerHandle, prefix: &str) {
    m.0.add_exclude_origin_prefix(prefix)
}

/// Relies on `loro::UndoManager::set_max_undo_steps`.
#[verifier::external_body]
fn lum_set_max_undo_steps(m: &mut ManagerHandle, size: usize) {
    m.0.set_max_undo_steps(size)
}

/// Relies on `loro::UndoManager::set_merge_interval`.
#[verifier::external_body]
fn lum_set_merge_interval(m: &mut ManagerHandle, interval: i64) {
    m.0.set_merge_interval(interval)
}

/// Relies on `loro::UndoManager::group_start`.
#[verifier::external_body]
fn lum_group_start(m: &mut ManagerHandle) -> Result<(), loro::LoroError> {
    m.0.group_start()
}

/// Relies on `loro::UndoManager::group_end`.
#[verifier::external_body]
fn lum_group_end(m: &mut ManagerHandle) {
    m.0.group_end()
}

/// Relies on `loro::UndoManager::peer`.
#[verifier::external_body]
fn lum_peer(m: &ManagerHandle) -> u64 {
    m.0.peer()
}

/// Relies on `loro::LoroError::UndoGroupAlreadyStarted` being the error that
/// `group_start` gives for a group opened twice; any other error comes from
/// the document.
#[verifier::external_body]
fn undo_error_of(e: loro::LoroError) -> UndoError {
    match e {
        loro::LoroError::UndoGroupAlreadyStarted => UndoError::GroupAlreadyStarted,
        _ => UndoError::Document,
    }
}

/// Undo and redo of one peer's local edits to a document.
///
/// Every local commit whose origin does not start with an excluded prefix is
/// recorded; commits within the merge interval of the previous one, with no
/// checkpoint between, join its entry; commits inside a group form one entry.
/// Listeners run while the manager is busy and must not call back into it.
pub struct UndoManager {
    pub inner: ManagerHandle,
}

/// The count as a `u32`, saturating.
fn count_u32(n: usize) -> (r: u32)
    ensures
        r == (if n > u32::MAX { u32::MAX as int } else { n as int }),
{
    if n > u32::MAX as usize {
        u32::MAX
    } else {
        n as u32
    }
}

impl UndoManager {
    /// A manager for `doc`'s local peer, with no merging and at most 100 steps.
    pub fn new(doc: &loro::LoroDoc) -> (r: UndoManager) {
        UndoManager { inner: lum_new(doc) }
    }

    /// Undoes the last recorded entry; `Ok(false)` when there is none.
    pub fn undo(&mut self) -> (r: Result<bool, UndoError>)
        ensures
            r matches Err(e) ==> e == UndoError::Document,
    {
        match lum_undo(&mut self.inner) {
            Ok(done) => Ok(done),
            Err(_) => Err(UndoError::Document),
        }
    }

    /// Redoes the last undone entry; `Ok(false)` when there is none.
    pub fn redo(&mut self) -> (r: Result<bool, UndoError>)
        ensures
            r matches Err(e) ==> e == UndoError::Document,
    {
        match lum_redo(&mut self.inner) {
            Ok(done) => Ok(done),
            Err(_) => Err(UndoError::Document),
        }
    }

    /// Makes the next edit start a new entry instead of joining the last one.
    pub fn record_new_checkpoint(&mut self) -> (r: Result<(), UndoError>)
        ensures
            r matches Err(e) ==> e == UndoError::Document,
    {
        match lum_record_new_checkpoint(&mut self.inner) {
            Ok(()) => Ok(()),
            Err(_) => Err(UndoError::Document),
        }
    }

    /// Whether there is an entry to undo.
    pub fn can_undo(&self) -> bool {
        lum_can_undo(&self.inner)
    }

    /// Whether there is an entry to redo.
    pub fn can_redo(&self) -> bool {
        lum_can_redo(&self.inner)
    }

    /// How many entries can be undone.
    pub fn undo_count(&self) -> u32 {
        count_u32(lum_undo_count(&self.inner))
    }

    /// How many entries can be redone.
    pub fn redo_count(&self) -> u32 {
        count_u32(lum_redo_count(&self.inner))
    }

    /// Commits whose origin starts with `prefix` are no longer recorded.
    pub fn add_exclude_origin_prefix(&mut self, prefix: &str) {
        lum_add_exclude_origin_prefix(&mut self.inner, prefix)
    }

    /// Keeps at most `size` undo entries, dropping the oldest.
    pub fn set_max_undo_steps(&mut self, size: u32) {
        lum_set_max_undo_steps(&mut self.inner, size as usize)
    }

    /// Commits within `interval` milliseconds of the last one join its entry;
    /// 0 merges nothing.
    pub fn set_merge_interval(&mut self, interval: i64) {
        lum_set_merge_interval(&mut self.inner, interval)
    }

    /// Opens a group: the edits until `group_end` form one entry. Fails when a
    /// group is already open.
    pub fn group_start(&mut self) -> (r: Result<(), UndoError>) {
        match lum_group_start(&mut self.inner) {
            Ok(()) => Ok(()),
            Err(e) => Err(undo_error_of(e)),
        }
    }

    /// Closes the open group, if any.
    pub fn group_end(&mut self) {
        lum_group_end(&mut self.inner)
    }

    /// The peer whose edits this manager records.
    pub fn peer(&self) -> u64 {
        lum_peer(&self.inner)
    }
}

} // verus!
