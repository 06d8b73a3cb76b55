//! Causality tracking (version vectors, frontiers, version ranges) and a
//! local undo/redo manager for replicated documents built on loro.
pub mod frontiers;
pub mod ids;
pub mod undo;
pub mod version_range;
pub mod version_vector;

pub use frontiers::Frontiers;
pub use ids::{CounterSpan, IdSpan, PeerID, ID};
pub use undo::{AbsolutePosition, CursorWithPos, UndoError, UndoItemMeta, UndoManager};
pub use version_range::{VersionRange, VersionRangeItem};
pub use version_vector::{DecodeError, VersionVector, VersionVectorDiff};
