//! Flipbook sprite animation over a packed texture atlas: frame tables built
//! from sprite-sheet metadata, a registry of named animations, and a playback
//! state machine that keeps frame and pivot corrections balanced.
//!
//! Offsets are measured in half-pixel units and rotations in quarter turns, so
//! every correction is exact; the host converts a returned [`OffsetShift`]
//! into its own transform, multiplying by the transform's scale.
pub mod frame_table;
pub mod laws;
pub mod offset;
pub mod records;
pub mod sprite;
pub mod timer;

pub use frame_table::{FrameTable, NamedSlot};
pub use offset::{FrameOffset, Offset, OffsetShift};
pub use records::{frame_offset, strip_byte_order_marks, FrameRecord, SheetFormat};
pub use sprite::{AnimatedSprite, AnimationData, PlayOutcome};
pub use timer::FrameTimer;
