use vstd::prelude::*;

verus! {

/// Largest magnitude, in half-pixel units, that a frame or pivot offset may have.
///
/// Trim offsets read from sprite-sheet metadata are 32-bit values, so they always
/// fit; the bound keeps every sum of four offsets inside an `i64`.
pub const OFFSET_LIMIT: i64 = 0x2_0000_0000;

/// A 2D displacement measured in half-pixel units.
///
/// Trim offsets are halved when they are turned into frame offsets, so a
/// half-pixel grid represents every frame offset exactly.
#[derive(Clone, Copy, Debug, PartialEq, Eq, Structural)]
pub struct Offset {
    pub x: i64,
    pub y: i64,
}

impl Offset {
    pub open spec fn in_range(self) -> bool {
        -OFFSET_LIMIT <= self.x <= OFFSET_LIMIT && -OFFSET_LIMIT <= self.y <= OFFSET_LIMIT
    }

    pub fn new(x: i64, y: i64) -> (r: Offset)
        ensures
            r.x == x,
            r.y == y,
    {
        Offset { x, y }
    }
}

/// The correction applied to the transform while a given atlas slot is shown:
/// a translation and, for frames packed sideways, a quarter turn.
#[derive(Clone, Copy, Debug, PartialEq, Eq, Structural)]
pub struct FrameOffset {
    pub position: Offset,
    pub rotated: bool,
}

impl FrameOffset {
    /// Rotation of this frame in quarter turns (+90 degrees each).
    pub open spec fn turns(self) -> int {
        if self.rotated {
            1
        } else {
            0
        }
    }
}

/// Total correction in force on a transform: translation in half-pixel units
/// (before the transform's scale is applied) and rotation in quarter turns.
pub struct Placement {
    pub x: int,
    pub y: int,
    pub turns: int,
}

pub open spec fn placement(x: int, y: int, turns: int) -> Placement {
    Placement { x, y, turns }
}

pub open spec fn no_placement() -> Placement {
    placement(0, 0, 0)
}

pub open spec fn add_placement(a: Placement, b: Placement) -> Placement {
    placement(a.x + b.x, a.y + b.y, a.turns + b.turns)
}

pub open spec fn sub_placement(a: Placement, b: Placement) -> Placement {
    placement(a.x - b.x, a.y - b.y, a.turns - b.turns)
}

/// A change the host applies to its transform: translate by `(dx, dy)` half
/// pixels, multiplied by the transform's scale, then rotate about the local Z
/// axis by `quarter_turns` times +90 degrees.
#[derive(Clone, Copy, Debug, PartialEq, Eq, Structural)]
pub struct OffsetShift {
    pub dx: i64,
    pub dy: i64,
    pub quarter_turns: i64,
}

impl OffsetShift {
    pub open spec fn as_placement(self) -> Placement {
        placement(self.dx as int, self.dy as int, self.quarter_turns as int)
    }

    pub fn none() -> (r: OffsetShift)
        ensures
            r.as_placement() == no_placement(),
    {
        OffsetShift { dx: 0, dy: 0, quarter_turns: 0 }
    }
}

/// Shift that removes one frame offset plus pivot and applies another frame
/// offset plus pivot.
pub fn swap_offsets(
    old_frame: FrameOffset,
    old_pivot: Offset,
    new_frame: FrameOffset,
    new_pivot: Offset,
) -> (r: OffsetShift)
    requires
        old_frame.position.in_range(),
        old_pivot.in_range(),
        new_frame.position.in_range(),
        new_pivot.in_range(),
    ensures
        r.dx == new_frame.position.x + new_pivot.x - old_frame.position.x - old_pivot.x,
        r.dy == new_frame.position.y + new_pivot.y - old_frame.position.y - old_pivot.y,
        r.quarter_turns == new_frame.turns() - old_frame.turns(),
{
    let dx: i64 = new_frame.position.x + new_pivot.x - old_frame.position.x - old_pivot.x;
    let dy: i64 = new_frame.position.y + new_pivot.y - old_frame.position.y - old_pivot.y;
    let t_old: i64 = if old_frame.rotated {
        1
    } else {
        0
    };
    let t_new: i64 = if new_frame.rotated {
        1
    } else {
        0
    };
    OffsetShift { dx, dy, quarter_turns: t_new - t_old }
}

} // verus!
