use vstd::prelude::*;

use crate::frame_table::{has_prefix, lemma_sorted_unique, strictly_sorted, string_views, FrameTable};
use crate::offset::{
    add_placement, no_placement, placement, sub_placement, swap_offsets, FrameOffset, Offset, OffsetShift, Placement,
};
use crate::records::{frame_offset, frame_offset_spec, FrameRecord, SheetFormat};
use crate::timer::FrameTimer;

verus! {

/// What an animation is, independent of how it is stored.
pub struct AnimationModel {
    pub name: Seq<char>,
    pub fps: u8,
    pub looped: bool,
    pub pivot: Offset,
    pub frames: Seq<usize>,
    pub cursor: usize,
    pub timer: FrameTimer,
}

/// A named flipbook animation: the atlas slots it shows, in order, and where
/// playback stands in it.
#[derive(Clone, Debug)]
pub struct AnimationData {
    pub name: String,
    pub fps: u8,
    pub looped: bool,
    /// Pivot correction of the whole animation, in half-pixel units.
    pub offset: Offset,
    pub indices: Vec<usize>,
    pub current_index: usize,
    pub timer: FrameTimer,
}

impl View for AnimationData {
    type V = AnimationModel;

    open spec fn view(&self) -> AnimationModel {
        AnimationModel {
            name: self.name@,
            fps: self.fps,
            looped: self.looped,
            pivot: self.offset,
            frames: self.indices@,
            cursor: self.current_index,
            timer: self.timer,
        }
    }
}

/// What an animated sprite is, independent of how it is stored.
pub struct SpriteModel {
    pub finished: bool,
    pub paused: bool,
    pub animations: Seq<AnimationModel>,
    pub frames: Map<Seq<char>, usize>,
    pub offsets: Seq<FrameOffset>,
    pub active: Option<usize>,
}

/// How a request to play an animation was handled.
pub enum PlayStatus {
    Unknown,
    AlreadyPlaying,
    Started,
}

/// The frame slots named by `names`, in order, leaving out names the table
/// does not hold.
pub open spec fn resolve(table: Map<Seq<char>, usize>, names: Seq<Seq<char>>) -> Seq<usize>
    decreases names.len(),
{
    if names.len() == 0 {
        Seq::empty()
    } else {
        let before = resolve(table, names.drop_last());
        if table.contains_key(names.last()) {
            before.push(table[names.last()])
        } else {
            before
        }
    }
}

/// The names of `table` that start with `prefix`, in lexicographic order.
pub open spec fn sorted_names_with_prefix(table: Map<Seq<char>, usize>, prefix: Seq<char>) -> Seq<Seq<char>> {
    choose|s: Seq<Seq<char>>|
        strictly_sorted(s) && forall|k: Seq<char>| #[trigger] s.contains(k) <==> (table.contains_key(k) && has_prefix(k, prefix))
}

/// Position of the animation called `name`.
pub open spec fn find_animation(anims: Seq<AnimationModel>, name: Seq<char>) -> Option<int> {
    if exists|i: int| 0 <= i < anims.len() && (#[trigger] anims[i]).name == name {
        Some(choose|i: int| 0 <= i < anims.len() && (#[trigger] anims[i]).name == name)
    } else {
        None
    }
}

proof fn lemma_find_animation_unique(anims: Seq<AnimationModel>, name: Seq<char>, i: int)
    requires
        names_distinct(anims),
        0 <= i < anims.len(),
        anims[i].name == name,
    ensures
        find_animation(anims, name) == Some(i),
{
    let c = choose|c: int| 0 <= c < anims.len() && (#[trigger] anims[c]).name == name;
    if c != i {
        if c < i {
            assert(anims[c].name != anims[i].name);
        } else {
            assert(anims[i].name != anims[c].name);
        }
    }
}

/// Where the active animation stands once the entry at `removed` is taken out
/// and its replacement appended at `last`: an entry after the removed one moves
/// down by one, and a replaced active animation stays active as its
/// replacement.
pub open spec fn active_after_removal(active: Option<usize>, removed: int, last: int) -> Option<usize> {
    match active {
        Some(a) => if a == removed {
            Some(last as usize)
        } else if removed < a {
            Some((a - 1) as usize)
        } else {
            Some(a)
        },
        None => None,
    }
}

pub open spec fn names_distinct(anims: Seq<AnimationModel>) -> bool {
    forall|i: int, j: int| 0 <= i < j < anims.len() ==> (#[trigger] anims[i]).name != (#[trigger] anims[j]).name
}

impl AnimationModel {
    pub open spec fn wf(self, slots: nat) -> bool {
        &&& self.fps > 0
        &&& self.frames.len() > 0
        &&& self.cursor < self.frames.len()
        &&& forall|j: int| 0 <= j < self.frames.len() ==> #[trigger] self.frames[j] < slots
        &&& self.pivot.in_range()
    }

    pub open spec fn with_cursor(self, cursor: usize) -> AnimationModel {
        AnimationModel { cursor, ..self }
    }

    pub open spec fn with_timer(self, timer: FrameTimer) -> AnimationModel {
        AnimationModel { timer, ..self }
    }
}

impl SpriteModel {
    pub open spec fn wf(self) -> bool {
        &&& forall|i: int| 0 <= i < self.animations.len() ==> (#[trigger] self.animations[i]).wf(self.offsets.len())
        &&& names_distinct(self.animations)
        &&& forall|j: int| 0 <= j < self.offsets.len() ==> (#[trigger] self.offsets[j]).position.in_range()
        &&& forall|k: Seq<char>| #[trigger] self.frames.contains_key(k) ==> self.frames[k] < self.offsets.len()
        &&& self.active matches Some(a) ==> a < self.animations.len()
        &&& self.animations.len() <= usize::MAX
    }

    /// The sprite index `shown` can be displayed with this sprite's frames.
    pub open spec fn shows_valid_slot(self, shown: usize) -> bool {
        self.active is Some ==> shown < self.offsets.len()
    }

    /// Correction that should be in force on the transform: the shown frame's
    /// offset plus the active animation's pivot, or nothing when idle.
    pub open spec fn applied(self, shown: usize) -> Placement {
        match self.active {
            Some(a) => placement(
                self.offsets[shown as int].position.x + self.animations[a as int].pivot.x,
                self.offsets[shown as int].position.y + self.animations[a as int].pivot.y,
                self.offsets[shown as int].turns(),
            ),
            None => no_placement(),
        }
    }

    pub open spec fn register(
        self,
        name: Seq<char>,
        names: Seq<Seq<char>>,
        fps: u8,
        looped: bool,
        pivot: Offset,
    ) -> SpriteModel {
        let frames = resolve(self.frames, names);
        if frames.len() == 0 {
            self
        } else {
            let (kept, active) = match find_animation(self.animations, name) {
                Some(i) => (
                    self.animations.remove(i),
                    active_after_removal(self.active, i, self.animations.len() - 1),
                ),
                None => (self.animations, self.active),
            };
            let fresh = AnimationModel {
                name,
                fps,
                looped,
                pivot,
                frames,
                cursor: 0,
                timer: FrameTimer { duration_nanos: FrameTimer::period_for(fps), elapsed_nanos: 0, just_finished: false },
            };
            SpriteModel { animations: kept.push(fresh), active, ..self }
        }
    }

    /// Outcome of `play`: the new sprite, the new sprite index, and how the
    /// request was handled.
    pub open spec fn play(self, shown: usize, name: Seq<char>, forced: bool) -> (SpriteModel, usize, PlayStatus) {
        match find_animation(self.animations, name) {
            None => (self, shown, PlayStatus::Unknown),
            Some(i) => {
                if !forced && (self.active matches Some(a) && self.animations[a as int].name == name) {
                    (self, shown, PlayStatus::AlreadyPlaying)
                } else {
                    let anims1 = match self.active {
                        Some(a) => self.animations.update(
                            a as int,
                            self.animations[a as int].with_cursor(0).with_timer(self.animations[a as int].timer.reset_spec()),
                        ),
                        None => self.animations,
                    };
                    let anims2 = anims1.update(i, anims1[i].with_cursor(0));
                    (
                        SpriteModel { finished: false, paused: false, animations: anims2, active: Some(i as usize), ..self },
                        anims2[i].frames[0],
                        PlayStatus::Started,
                    )
                }
            },
        }
    }

    /// Outcome of moving the active animation to its next frame.
    pub open spec fn advance(self, shown: usize) -> (SpriteModel, usize) {
        match self.active {
            None => (self, shown),
            Some(a) => {
                let an = self.animations[a as int];
                let reset = an.with_timer(an.timer.reset_spec());
                if an.cursor >= an.frames.len() - 1 {
                    if !an.looped {
                        (SpriteModel { finished: true, animations: self.animations.update(a as int, reset), ..self }, shown)
                    } else {
                        (
                            SpriteModel { animations: self.animations.update(a as int, reset.with_cursor(0)), ..self },
                            an.frames[0],
                        )
                    }
                } else {
                    let next = (an.cursor + 1) as usize;
                    (
                        SpriteModel { animations: self.animations.update(a as int, reset.with_cursor(next)), ..self },
                        an.frames[next as int],
                    )
                }
            },
        }
    }

    /// Outcome of letting `delta_nanos` of playback time pass.
    pub open spec fn update(self, shown: usize, delta_nanos: u64) -> (SpriteModel, usize) {
        if self.finished || self.paused {
            (self, shown)
        } else {
            match self.active {
                None => (self, shown),
                Some(a) => {
                    let an = self.animations[a as int];
                    let ticked = an.timer.tick_spec(delta_nanos);
                    let s1 = SpriteModel { animations: self.animations.update(a as int, an.with_timer(ticked)), ..self };
                    if ticked.just_finished {
                        s1.advance(shown)
                    } else {
                        (s1, shown)
                    }
                },
            }
        }
    }
}

/// An entity's animations over one sprite sheet, with playback state.
pub struct AnimatedSprite {
    pub animation_is_finished: bool,
    pub animation_is_paused: bool,
    pub animations: Vec<AnimationData>,
    pub frames: FrameTable,
    pub frame_offsets: Vec<FrameOffset>,
    pub current_animation_index: Option<usize>,
}

impl View for AnimatedSprite {
    type V = SpriteModel;

    open spec fn view(&self) -> SpriteModel {
        SpriteModel {
            finished: self.animation_is_finished,
            paused: self.animation_is_paused,
            animations: self.animations@.map_values(|a: AnimationData| a@),
            frames: self.frames@,
            offsets: self.frame_offsets@,
            active: self.current_animation_index,
        }
    }
}

/// What a call to `play_animation` did.
#[derive(Clone, Copy, Debug, PartialEq, Eq, Structural)]
pub enum PlayOutcome {
    /// No animation has that name; nothing changed.
    Unknown,
    /// That animation is already playing and replay was not forced; nothing changed.
    AlreadyPlaying,
    /// The animation started; the host applies the shift to its transform.
    Started(OffsetShift),
}

/// The frame table built from the first `n` records, each stored at the slot
/// the atlas gave it: `None` if a slot lies past the end of the offsets built
/// so far.
pub open spec fn build_table(
    format: SheetFormat,
    records: Seq<FrameRecord>,
    slots: Seq<usize>,
    n: nat,
) -> Option<(Map<Seq<char>, usize>, Seq<FrameOffset>)>
    decreases n,
{
    if n == 0 {
        Some((Map::empty(), Seq::empty()))
    } else {
        match build_table(format, records, slots, (n - 1) as nat) {
            Some(t) => {
                let slot = slots[n - 1];
                if slot <= t.1.len() {
                    Some(
                        (
                            t.0.insert(records[n - 1].name@, slot),
                            t.1.insert(slot as int, frame_offset_spec(format, records[n - 1])),
                        ),
                    )
                } else {
                    None
                }
            },
            None => None,
        }
    }
}

proof fn lemma_build_stays_failed(format: SheetFormat, records: Seq<FrameRecord>, slots: Seq<usize>, k: nat, n: nat)
    requires
        build_table(format, records, slots, k) is None,
        k <= n,
    ensures
        build_table(format, records, slots, n) is None,
    decreases n - k,
{
    if k < n {
        lemma_build_stays_failed(format, records, slots, (k + 1) as nat, n);
    }
}

/// `AnimatedSprite` state of a freshly loaded sheet with the given table.
pub open spec fn loaded_sprite(table: (Map<Seq<char>, usize>, Seq<FrameOffset>)) -> SpriteModel {
    SpriteModel {
        finished: false,
        paused: false,
        animations: Seq::empty(),
        frames: table.0,
        offsets: table.1,
        active: None,
    }
}

/// `r` reports `status`, and a start carries the net change of correction.
pub open spec fn outcome_agrees(r: PlayOutcome, status: PlayStatus, change: Placement) -> bool {
    match status {
        PlayStatus::Unknown => r == PlayOutcome::Unknown,
        PlayStatus::AlreadyPlaying => r == PlayOutcome::AlreadyPlaying,
        PlayStatus::Started => r matches PlayOutcome::Started(shift) && shift.as_placement() == change,
    }
}

impl AnimationData {
    pub open spec fn empty_model() -> AnimationModel {
        AnimationModel {
            name: Seq::empty(),
            fps: 0,
            looped: false,
            pivot: Offset { x: 0, y: 0 },
            frames: Seq::empty(),
            cursor: 0,
            timer: FrameTimer { duration_nanos: 0, elapsed_nanos: 0, just_finished: false },
        }
    }

    /// An animation with no name, no frames and zero fps.
    pub fn empty() -> (r: AnimationData)
        ensures
            r@ == AnimationData::empty_model(),
    {
        let r = AnimationData {
            name: String::new(),
            fps: 0,
            looped: false,
            offset: Offset { x: 0, y: 0 },
            indices: Vec::new(),
            current_index: 0,
            timer: FrameTimer { duration_nanos: 0, elapsed_nanos: 0, just_finished: false },
        };
        assert(r@.frames =~= Seq::<usize>::empty());
        assert(r@.name =~= Seq::<char>::empty());
        r
    }
}

impl AnimatedSprite {
    pub open spec fn wf(&self) -> bool {
        self.frames.wf() && self@.wf()
    }

    /// A sprite with no frames and no animations.
    pub fn new() -> (r: AnimatedSprite)
        ensures
            r.wf(),
            r@.animations.len() == 0,
            r@.frames == Map::<Seq<char>, usize>::empty(),
            r@.offsets.len() == 0,
            r@.active is None,
            !r@.finished && !r@.paused,
    {
        let r = AnimatedSprite {
            animation_is_finished: false,
            animation_is_paused: false,
            animations: Vec::new(),
            frames: FrameTable::new(),
            frame_offsets: Vec::new(),
            current_animation_index: None,
        };
        assert(r@.animations =~= Seq::<AnimationModel>::empty());
        r
    }

    /// Builds the frame table of a sprite sheet: record `i` was placed in atlas
    /// slot `slots[i]`. Its name maps to that slot (a later record of the same
    /// name wins) and its frame offset is stored at that slot. Returns `None`
    /// when the lists differ in length or a slot lies past the offsets stored
    /// so far.
    pub fn from_frame_records(format: SheetFormat, records: &Vec<FrameRecord>, slots: &Vec<usize>) -> (r: Option<
        AnimatedSprite,
    >)
        requires
            forall|i: int| 0 <= i < records@.len() ==> (#[trigger] records@[i]).in_range(),
        ensures
            match r {
                Some(s) => s.wf() && records@.len() == slots@.len() && build_table(format, records@, slots@, records@.len())
                    == Some((s@.frames, s@.offsets)) && s@ == loaded_sprite((s@.frames, s@.offsets)),
                None => records@.len() != slots@.len() || build_table(format, records@, slots@, records@.len()) is None,
            },
    {
        if records.len() != slots.len() {
            return None;
        }
        let mut sprite = AnimatedSprite::new();
        assert(sprite@.animations =~= Seq::<AnimationModel>::empty());
        assert(sprite@.offsets =~= Seq::<FrameOffset>::empty());
        let n: usize = records.len();
        let mut i: usize = 0;
        while i < n
            invariant
                n == records@.len(),
                n == slots@.len(),
                i <= n,
                forall|j: int| 0 <= j < records@.len() ==> (#[trigger] records@[j]).in_range(),
                sprite.wf(),
                build_table(format, records@, slots@, i as nat) == Some((sprite@.frames, sprite@.offsets)),
                sprite@ == loaded_sprite((sprite@.frames, sprite@.offsets)),
            decreases n - i,
        {
            let slot: usize = slots[i];
            if slot > sprite.frame_offsets.len() {
                proof {
                    let k = (i + 1) as nat;
                    assert(build_table(format, records@, slots@, k) is None);
                    lemma_build_stays_failed(format, records@, slots@, k, n as nat);
                }
                return None;
            }
            let ghost before = sprite@;
            let off = frame_offset(format, &records[i]);
            sprite.frame_offsets.insert(slot, off);
            sprite.frames.insert(records[i].name.clone(), slot);
            proof {
                assert forall|j: int| 0 <= j < sprite@.offsets.len() implies (#[trigger] sprite@.offsets[j]).position.in_range() by {
                    if j < slot {
                        assert(sprite@.offsets[j] == before.offsets[j]);
                    } else if j > slot {
                        assert(sprite@.offsets[j] == before.offsets[j - 1]);
                    }
                }
                assert(sprite@.animations =~= Seq::<AnimationModel>::empty());
                assert(sprite@ == loaded_sprite((sprite@.frames, sprite@.offsets)));
            }
            i = i + 1;
        }
        Some(sprite)
    }

    fn find_animation(&self, name: &String) -> (r: Option<usize>)
        requires
            self.wf(),
        ensures
            match r {
                Some(i) => i < self@.animations.len() && self@.animations[i as int].name == name@
                    && find_animation(self@.animations, name@) == Some(i as int),
                None => find_animation(self@.animations, name@) is None,
            },
    {
        let n: usize = self.animations.len();
        let mut i: usize = 0;
        while i < n
            invariant
                self.wf(),
                n == self@.animations.len(),
                i <= n,
                forall|j: int| 0 <= j < i ==> (#[trigger] self@.animations[j]).name != name@,
            decreases n - i,
        {
            if self.animations[i].name == *name {
                proof {
                    lemma_find_animation_unique(self@.animations, name@, i as int);
                }
                return Some(i);
            }
            i = i + 1;
        }
        None
    }

    /// Registers `animation_name` as the frames named in `frames`, in that
    /// order, at `fps` frames per second. Names the frame table does not hold
    /// are left out; if none remains, nothing is registered and `None` is
    /// returned. An animation of the same name is replaced, and the new one
    /// comes last.
    ///
    /// The animation that was playing keeps playing under its name. If it is
    /// the one replaced, its replacement becomes active from its first entry
    /// while the same slot stays shown; the returned shift then swaps the old
    /// pivot for the new one, and is zero otherwise.
    pub fn add_animation_by_frames(
        &mut self,
        animation_name: &str,
        frames: Vec<String>,
        fps: u8,
        looped: bool,
        offset: Offset,
    ) -> (r: Option<OffsetShift>)
        requires
            old(self).wf(),
            fps > 0,
            offset.in_range(),
        ensures
            final(self).wf(),
            final(self)@ == old(self)@.register(animation_name@, string_views(frames@), fps, looped, offset),
            r is Some == (resolve(old(self)@.frames, string_views(frames@)).len() > 0),
            r matches Some(shift) ==> forall|shown: usize|
                #[trigger] final(self)@.applied(shown) == add_placement(old(self)@.applied(shown), shift.as_placement()),
    {
        let ghost names = string_views(frames@);
        let mut indices: Vec<usize> = Vec::new();
        let n: usize = frames.len();
        let mut i: usize = 0;
        while i < n
            invariant
                self.wf(),
                n == frames@.len(),
                names == string_views(frames@),
                i <= n,
                indices@ == resolve(self@.frames, names.subrange(0, i as int)),
                forall|j: int| 0 <= j < indices@.len() ==> #[trigger] indices@[j] < self@.offsets.len(),
            decreases n - i,
        {
            proof {
                assert(names.subrange(0, i + 1).drop_last() =~= names.subrange(0, i as int));
            }
            match self.frames.get(&frames[i]) {
                Some(slot) => {
                    indices.push(slot);
                },
                None => {},
            }
            i = i + 1;
        }
        proof {
            assert(names.subrange(0, n as int) =~= names);
        }
        if indices.len() == 0 {
            return None;
        }
        let name: String = animation_name.to_owned();
        let ghost s0 = self@;
        let ghost before = self@.animations;
        let mut replaced_pivot: Option<Offset> = None;
        match self.find_animation(&name) {
            Some(index) => {
                proof {
                    assert(before[index as int].name == name@);
                }
                let removed = self.animations.remove(index);
                match self.current_animation_index {
                    Some(a) => {
                        if a == index {
                            replaced_pivot = Some(removed.offset);
                        } else if index < a {
                            self.current_animation_index = Some(a - 1);
                        }
                    },
                    None => {},
                }
                proof {
                    assert(self@.animations =~= before.remove(index as int));
                    assert forall|a: int| 0 <= a < self@.animations.len() implies
                        (#[trigger] self@.animations[a]).name != name@ by {
                        if a < index {
                            assert(self@.animations[a] == before[a]);
                            assert(before[a].name != before[index as int].name);
                        } else {
                            assert(self@.animations[a] == before[a + 1]);
                            assert(before[index as int].name != before[a + 1].name);
                        }
                    }
                }
            },
            None => {},
        }
        let ghost kept = self@.animations;
        assert(forall|a: int| 0 <= a < kept.len() ==> (#[trigger] kept[a]).name != name@);
        let data = AnimationData {
            name,
            fps,
            looped,
            offset,
            indices,
            current_index: 0,
            timer: FrameTimer::from_fps(fps),
        };
        self.animations.push(data);
        let mut shift = OffsetShift::none();
        match replaced_pivot {
            Some(p) => {
                self.current_animation_index = Some(self.animations.len() - 1);
                shift = OffsetShift { dx: offset.x - p.x, dy: offset.y - p.y, quarter_turns: 0 };
            },
            None => {},
        }
        proof {
            assert(self.animations.len() == self.animations@.len());
            assert(self@.animations =~= kept.push(data@));
            let expected = s0.register(name@, names, fps, looped, offset);
            assert(self@.animations == expected.animations);
            assert(self@.active == expected.active);
            assert(self@ == expected);
            assert forall|shown: usize| #[trigger] self@.applied(shown) == add_placement(
                s0.applied(shown),
                shift.as_placement(),
            ) by {
                match s0.active {
                    Some(a) => {
                        match find_animation(s0.animations, name@) {
                            Some(i) => {
                                if a as int == i {
                                } else if i < a {
                                    assert(self@.animations[a - 1] == before[a as int]);
                                } else {
                                    assert(self@.animations[a as int] == before[a as int]);
                                }
                            },
                            None => {
                                assert(self@.animations[a as int] == before[a as int]);
                            },
                        }
                    },
                    None => {},
                }
            }
            assert forall|a: int, b: int| 0 <= a < b < self@.animations.len() implies
                (#[trigger] self@.animations[a]).name != (#[trigger] self@.animations[b]).name by {
                if b == self@.animations.len() - 1 {
                    assert(self@.animations[a] == kept[a]);
                } else {
                    assert(self@.animations[a] == kept[a]);
                    assert(self@.animations[b] == kept[b]);
                }
            }
        }
        Some(shift)
    }

    /// Registers `animation_name` as every frame whose name starts with
    /// `prefix`, in lexicographic order of the names; otherwise as
    /// `add_animation_by_frames`.
    pub fn add_animation_by_prefix(
        &mut self,
        animation_name: &str,
        prefix: &str,
        fps: u8,
        looped: bool,
        offset: Offset,
    ) -> (r: Option<OffsetShift>)
        requires
            old(self).wf(),
            fps > 0,
            offset.in_range(),
        ensures
            final(self).wf(),
            final(self)@ == old(self)@.register(
                animation_name@,
                sorted_names_with_prefix(old(self)@.frames, prefix@),
                fps,
                looped,
                offset,
            ),
            r is Some == (resolve(old(self)@.frames, sorted_names_with_prefix(old(self)@.frames, prefix@)).len() > 0),
            r matches Some(shift) ==> forall|shown: usize|
                #[trigger] final(self)@.applied(shown) == add_placement(old(self)@.applied(shown), shift.as_placement()),
    {
        let frames = self.frames.names_with_prefix(prefix);
        proof {
            let found = string_views(frames@);
            assert(strictly_sorted(found) && forall|k: Seq<char>| #[trigger] found.contains(k) <==> (self@.frames.contains_key(k) && has_prefix(k, prefix@)));
            lemma_sorted_unique(found, sorted_names_with_prefix(self@.frames, prefix@));
        }
        self.add_animation_by_frames(animation_name, frames, fps, looped, offset)
    }

    /// Starts the animation called `animation_name`, showing its first frame.
    ///
    /// Nothing changes when no animation has that name, or when it is the one
    /// playing and `forced` is false. Otherwise the outgoing animation (if any)
    /// is rewound, its frame offset and pivot are removed, and the new
    /// animation's first frame offset and pivot are applied: the returned shift
    /// is that net change.
    pub fn play_animation(&mut self, animation_name: &str, forced: bool, sprite_index: &mut usize) -> (r: PlayOutcome)
        requires
            old(self).wf(),
            old(self)@.shows_valid_slot(*old(sprite_index)),
        ensures
            final(self).wf(),
            final(self)@.shows_valid_slot(*final(sprite_index)),
            final(self)@ == old(self)@.play(*old(sprite_index), animation_name@, forced).0,
            *final(sprite_index) == old(self)@.play(*old(sprite_index), animation_name@, forced).1,
            outcome_agrees(
                r,
                old(self)@.play(*old(sprite_index), animation_name@, forced).2,
                sub_placement(final(self)@.applied(*final(sprite_index)), old(self)@.applied(*old(sprite_index))),
            ),
    {
        let name: String = animation_name.to_owned();
        let i: usize = match self.find_animation(&name) {
            None => {
                return PlayOutcome::Unknown;
            },
            Some(i) => i,
        };
        let ghost s0 = self@;
        let old_shown: usize = *sprite_index;
        let mut removed_frame = FrameOffset { position: Offset { x: 0, y: 0 }, rotated: false };
        let mut removed_pivot = Offset { x: 0, y: 0 };
        match self.current_animation_index {
            Some(a) => {
                if !forced && self.animations[a].name == name {
                    return PlayOutcome::AlreadyPlaying;
                }
                removed_frame = self.frame_offsets[old_shown];
                removed_pivot = self.animations[a].offset;
                self.animations[a].timer.reset();
                self.animations[a].current_index = 0;
            },
            None => {},
        }
        let ghost anims1 = self@.animations;
        self.animation_is_finished = false;
        self.animation_is_paused = false;
        self.current_animation_index = Some(i);
        self.animations[i].current_index = 0;
        let slot: usize = self.animations[i].indices[0];
        *sprite_index = slot;
        let shift = swap_offsets(removed_frame, removed_pivot, self.frame_offsets[slot], self.animations[i].offset);
        proof {
            let expected = s0.play(old_shown, name@, forced);
            match s0.active {
                Some(a) => {
                    assert(anims1 =~= s0.animations.update(
                        a as int,
                        s0.animations[a as int].with_cursor(0).with_timer(s0.animations[a as int].timer.reset_spec()),
                    ));
                },
                None => {
                    assert(anims1 =~= s0.animations);
                },
            }
            assert(self@.animations =~= expected.0.animations);
            assert(self@ == expected.0);
            assert forall|j: int| 0 <= j < self@.animations.len() implies (#[trigger] self@.animations[j]).wf(
                self@.offsets.len(),
            ) by {
                assert(s0.animations[j].wf(s0.offsets.len()));
            }
            assert forall|x: int, y: int| 0 <= x < y < self@.animations.len() implies (
            #[trigger] self@.animations[x]).name != (#[trigger] self@.animations[y]).name by {
                assert(s0.animations[x].name != s0.animations[y].name);
            }
        }
        PlayOutcome::Started(shift)
    }

    /// Moves the active animation to its next frame and restarts its timer.
    ///
    /// On the last frame a looping animation goes back to its first frame; any
    /// other animation is marked finished and keeps showing the last frame.
    /// The returned shift removes the outgoing frame's offset and applies the
    /// incoming one; the pivot is untouched.
    pub fn next_frame(&mut self, sprite_index: &mut usize) -> (r: OffsetShift)
        requires
            old(self).wf(),
            old(self)@.active is Some,
            old(self)@.shows_valid_slot(*old(sprite_index)),
        ensures
            final(self).wf(),
            final(self)@.shows_valid_slot(*final(sprite_index)),
            (final(self)@, *final(sprite_index)) == old(self)@.advance(*old(sprite_index)),
            r.as_placement() == sub_placement(
                final(self)@.applied(*final(sprite_index)),
                old(self)@.applied(*old(sprite_index)),
            ),
    {
        let ghost s0 = self@;
        let a: usize = match self.current_animation_index {
            Some(a) => a,
            None => {
                return OffsetShift::none();
            },
        };
        let old_shown: usize = *sprite_index;
        self.animations[a].timer.reset();
        let cur: usize = self.animations[a].current_index;
        let len: usize = self.animations[a].indices.len();
        let pivot = self.animations[a].offset;
        if cur >= len - 1 {
            if !self.animations[a].looped {
                self.animation_is_finished = true;
                proof {
                    assert(self@.animations =~= s0.advance(old_shown).0.animations);
                    assert forall|j: int| 0 <= j < self@.animations.len() implies (#[trigger] self@.animations[j]).wf(
                        self@.offsets.len(),
                    ) by {
                        assert(s0.animations[j].wf(s0.offsets.len()));
                    }
                    assert forall|x: int, y: int| 0 <= x < y < self@.animations.len() implies (
                    #[trigger] self@.animations[x]).name != (#[trigger] self@.animations[y]).name by {
                        assert(s0.animations[x].name != s0.animations[y].name);
                    }
                }
                return OffsetShift::none();
            }
            self.animations[a].current_index = 0;
        } else {
            self.animations[a].current_index = cur + 1;
        }
        let slot: usize = self.animations[a].indices[self.animations[a].current_index];
        *sprite_index = slot;
        let shift = swap_offsets(self.frame_offsets[old_shown], pivot, self.frame_offsets[slot], pivot);
        proof {
            assert(self@.animations =~= s0.advance(old_shown).0.animations);
            assert forall|j: int| 0 <= j < self@.animations.len() implies (#[trigger] self@.animations[j]).wf(
                self@.offsets.len(),
            ) by {
                assert(s0.animations[j].wf(s0.offsets.len()));
            }
            assert forall|x: int, y: int| 0 <= x < y < self@.animations.len() implies (
            #[trigger] self@.animations[x]).name != (#[trigger] self@.animations[y]).name by {
                assert(s0.animations[x].name != s0.animations[y].name);
            }
        }
        shift
    }

    /// Lets `delta_nanos` of playback time pass. A finished or paused sprite,
    /// or one with no active animation, is left alone. Otherwise the active
    /// animation's timer advances, and if it ran out on this tick the
    /// animation moves one frame (never more, however long the delta).
    pub fn update_frame(&mut self, sprite_index: &mut usize, delta_nanos: u64) -> (r: OffsetShift)
        requires
            old(self).wf(),
            old(self)@.shows_valid_slot(*old(sprite_index)),
        ensures
            final(self).wf(),
            final(self)@.shows_valid_slot(*final(sprite_index)),
            (final(self)@, *final(sprite_index)) == old(self)@.update(*old(sprite_index), delta_nanos),
            r.as_placement() == sub_placement(
                final(self)@.applied(*final(sprite_index)),
                old(self)@.applied(*old(sprite_index)),
            ),
    {
        if self.animation_is_finished || self.animation_is_paused {
            return OffsetShift::none();
        }
        let ghost s0 = self@;
        match self.current_animation_index {
            None => OffsetShift::none(),
            Some(a) => {
                let fired = self.animations[a].timer.tick(delta_nanos);
                proof {
                    let an = s0.animations[a as int];
                    assert(self@.animations =~= s0.animations.update(a as int, an.with_timer(an.timer.tick_spec(delta_nanos))));
                    assert forall|j: int| 0 <= j < self@.animations.len() implies (#[trigger] self@.animations[j]).wf(
                        self@.offsets.len(),
                    ) by {
                        assert(s0.animations[j].wf(s0.offsets.len()));
                    }
                    assert forall|x: int, y: int| 0 <= x < y < self@.animations.len() implies (
                    #[trigger] self@.animations[x]).name != (#[trigger] self@.animations[y]).name by {
                        assert(s0.animations[x].name != s0.animations[y].name);
                    }
                    assert(self@.offsets == s0.offsets);
                    assert(self@.frames == s0.frames);
                    assert(self@.wf());
                    assert(self.frames.wf());
                }
                if fired {
                    self.next_frame(sprite_index)
                } else {
                    OffsetShift::none()
                }
            },
        }
    }

    /// Stops the clock of the current animation until `resume`.
    pub fn pause(&mut self)
        requires
            old(self).wf(),
        ensures
            final(self).wf(),
            final(self)@ == (SpriteModel { paused: true, ..old(self)@ }),
    {
        self.animation_is_paused = true;
    }

    /// Lets a paused animation run again.
    pub fn resume(&mut self)
        requires
            old(self).wf(),
        ensures
            final(self).wf(),
            final(self)@ == (SpriteModel { paused: false, ..old(self)@ }),
    {
        self.animation_is_paused = false;
    }

    /// A copy of the active animation, or an empty animation (no name, no
    /// frames, zero fps) when none is active.
    pub fn current_animation(&self) -> (r: AnimationData)
        requires
            self.wf(),
        ensures
            match self@.active {
                Some(a) => r@ == self@.animations[a as int],
                None => r@ == AnimationData::empty_model(),
            },
    {
        match self.current_animation_index {
            Some(a) => {
                let an = &self.animations[a];
                let mut indices: Vec<usize> = Vec::new();
                let n: usize = an.indices.len();
                let mut i: usize = 0;
                while i < n
                    invariant
                        n == an.indices@.len(),
                        i <= n,
                        indices@ == an.indices@.subrange(0, i as int),
                    decreases n - i,
                {
                    indices.push(an.indices[i]);
                    i = i + 1;
                }
                assert(indices@ =~= an.indices@);
                AnimationData {
                    name: an.name.clone(),
                    fps: an.fps,
                    looped: an.looped,
                    offset: an.offset,
                    indices,
                    current_index: an.current_index,
                    timer: an.timer,
                }
            },
            None => AnimationData::empty(),
        }
    }
}

} // verus!
