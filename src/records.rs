use vstd::prelude::*;

use crate::offset::{FrameOffset, Offset};

verus! {

/// The sprite-sheet metadata schemas the loader understands.
#[derive(Clone, Copy, Debug, PartialEq, Eq, Structural)]
pub enum SheetFormat {
    /// Sparrow / Starling XML: a list of `SubTexture` elements.
    Sparrow,
    /// TexturePacker JSON with `frames` as an object keyed by frame name.
    JsonHash,
    /// TexturePacker JSON with `frames` as an array carrying `filename`.
    JsonArray,
    /// Adobe Edge Animate: the JSON-array structure under another extension.
    EdgeAnimate,
}

impl SheetFormat {
    /// Sign applied to a trim offset when it becomes a frame offset. The XML
    /// tools and the JSON tools measure trims in opposite directions.
    pub open spec fn trim_sign(self) -> int {
        match self {
            SheetFormat::Sparrow => 1,
            _ => -1,
        }
    }
}

/// One frame as decoded from sprite-sheet metadata.
///
/// `trim_x` / `trim_y` are the schema's trim values in pixels (`frameX`/`frameY`
/// for XML, `spriteSourceSize.x/y` for JSON).
#[derive(Clone, Debug)]
pub struct FrameRecord {
    pub name: String,
    pub x: u32,
    pub y: u32,
    pub width: u32,
    pub height: u32,
    pub trim_x: i64,
    pub trim_y: i64,
    pub rotated: bool,
}

impl FrameRecord {
    /// Trim values that any schema can produce: signed or unsigned 32-bit.
    pub open spec fn in_range(self) -> bool {
        i32::MIN <= self.trim_x <= u32::MAX && i32::MIN <= self.trim_y <= u32::MAX
    }

    /// A `SubTexture` element of a Sparrow / Starling sheet; the schema has no
    /// rotation flag.
    pub fn sparrow(name: String, x: u32, y: u32, width: u32, height: u32, frame_x: i32, frame_y: i32) -> (r: FrameRecord)
        ensures
            r.name@ == name@,
            r.x == x && r.y == y && r.width == width && r.height == height,
            r.trim_x == frame_x as i64,
            r.trim_y == frame_y as i64,
            !r.rotated,
            r.in_range(),
    {
        FrameRecord { name, x, y, width, height, trim_x: frame_x as i64, trim_y: frame_y as i64, rotated: false }
    }

    /// A frame entry of a TexturePacker-style JSON sheet.
    pub fn texture_packer(
        name: String,
        x: u32,
        y: u32,
        width: u32,
        height: u32,
        rotated: bool,
        source_x: u32,
        source_y: u32,
    ) -> (r: FrameRecord)
        ensures
            r.name@ == name@,
            r.x == x && r.y == y && r.width == width && r.height == height,
            r.trim_x == source_x as i64,
            r.trim_y == source_y as i64,
            r.rotated == rotated,
            r.in_range(),
    {
        FrameRecord { name, x, y, width, height, trim_x: source_x as i64, trim_y: source_y as i64, rotated }
    }

    /// Corners `(min_x, min_y, max_x, max_y)` of the frame's rectangle in the
    /// sheet image, in pixels.
    pub fn source_rect(&self) -> (r: (u64, u64, u64, u64))
        ensures
            r.0 == self.x,
            r.1 == self.y,
            r.2 == self.x + self.width,
            r.3 == self.y + self.height,
    {
        (self.x as u64, self.y as u64, self.x as u64 + self.width as u64, self.y as u64 + self.height as u64)
    }
}

/// The frame offset a record yields under a schema: half the trim, signed by
/// the schema's convention, in half-pixel units; a rotated frame turns +90°.
pub open spec fn frame_offset_spec(format: SheetFormat, rec: FrameRecord) -> FrameOffset {
    FrameOffset {
        position: Offset {
            x: (format.trim_sign() * rec.trim_x) as i64,
            y: (format.trim_sign() * rec.trim_y) as i64,
        },
        rotated: rec.rotated,
    }
}

pub fn frame_offset(format: SheetFormat, rec: &FrameRecord) -> (r: FrameOffset)
    requires
        rec.in_range(),
    ensures
        r == frame_offset_spec(format, *rec),
        r.position.x == format.trim_sign() * rec.trim_x,
        r.position.y == format.trim_sign() * rec.trim_y,
        r.position.in_range(),
{
    let sparrow = matches!(format, SheetFormat::Sparrow);
    let x: i64 = if sparrow { rec.trim_x } else { -rec.trim_x };
    let y: i64 = if sparrow { rec.trim_y } else { -rec.trim_y };
    FrameOffset { position: Offset { x, y }, rotated: rec.rotated }
}

/// The byte-order mark some tools put at the start of a text file.
pub const BYTE_ORDER_MARK: char = '\u{FEFF}';

/// Number of byte-order marks at the start of `s`.
pub open spec fn leading_marks(s: Seq<char>) -> nat
    decreases s.len(),
{
    if s.len() > 0 && s[0] == BYTE_ORDER_MARK {
        1 + leading_marks(s.subrange(1, s.len() as int))
    } else {
        0
    }
}

/// Removes every byte-order mark at the start of metadata text, leaving the
/// rest as it is.
pub fn strip_byte_order_marks(text: &str) -> (r: String)
    ensures
        r@ == text@.subrange(leading_marks(text@) as int, text@.len() as int),
        r@.len() == 0 || r@[0] != BYTE_ORDER_MARK,
{
    let n: usize = text.unicode_len();
    let mut i: usize = 0;
    assert(text@.subrange(0, n as int) =~= text@);
    while i < n && text.get_char(i) == BYTE_ORDER_MARK
        invariant
            n == text@.len(),
            i <= n,
            forall|j: int| 0 <= j < i ==> text@[j] == BYTE_ORDER_MARK,
            leading_marks(text@) == i + leading_marks(text@.subrange(i as int, n as int)),
        decreases n - i,
    {
        proof {
            let rest = text@.subrange(i as int, n as int);
            assert(rest.subrange(1, rest.len() as int) =~= text@.subrange(i + 1, n as int));
        }
        i = i + 1;
    }
    proof {
        let rest = text@.subrange(i as int, n as int);
        if i < n {
            assert(rest[0] == text@[i as int]);
        }
    }
    text.substring_char(i, n).to_owned()
}

} // verus!
