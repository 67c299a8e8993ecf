use vstd::prelude::*;

use crate::frame_table::{has_prefix, lemma_sorted_unique, strictly_sorted};
use crate::offset::{add_placement, no_placement, sub_placement, Placement};
use crate::records::{frame_offset_spec, FrameRecord, SheetFormat};
use crate::sprite::{build_table, find_animation, resolve, sorted_names_with_prefix, SpriteModel};

verus! {

/// Loading a sheet whose `n` records have distinct names into a fresh atlas
/// (slots `0, 1, ..., n - 1`) gives a table whose names are exactly the `n`
/// record names, each at its record's slot, whose offsets are the record's
/// trim halved and signed by the schema (`+` for XML, `-` for JSON).
pub proof fn lemma_load_fresh_sheet(format: SheetFormat, records: Seq<FrameRecord>, slots: Seq<usize>)
    requires
        slots.len() == records.len(),
        forall|i: int| 0 <= i < slots.len() ==> slots[i] == i,
        forall|i: int, j: int| 0 <= i < j < records.len() ==> (#[trigger] records[i]).name@ != (#[trigger] records[j]).name@,
        forall|i: int| 0 <= i < records.len() ==> (#[trigger] records[i]).in_range(),
    ensures
        build_table(format, records, slots, records.len()) is Some,
        ({
            let t = build_table(format, records, slots, records.len())->0;
            &&& t.0.dom().len() == records.len()
            &&& t.1.len() == records.len()
            &&& forall|k: Seq<char>| #[trigger] t.0.contains_key(k) <==> exists|i: int|
                0 <= i < records.len() && (#[trigger] records[i]).name@ == k
        }),
        forall|i: int|
            0 <= i < records.len() ==> {
                let t = build_table(format, records, slots, records.len())->0;
                &&& t.0.contains_key((#[trigger] records[i]).name@)
                &&& t.0[records[i].name@] == i
                &&& t.1[i].position.x == format.trim_sign() * records[i].trim_x
                &&& t.1[i].position.y == format.trim_sign() * records[i].trim_y
                &&& t.1[i].rotated == records[i].rotated
            },
{
    lemma_load_prefix(format, records, slots, records.len());
    let t = build_table(format, records, slots, records.len())->0;
    assert forall|k: Seq<char>| #[trigger] t.0.contains_key(k) <==> exists|i: int|
        0 <= i < records.len() && (#[trigger] records[i]).name@ == k by {
        if exists|i: int| 0 <= i < records.len() && (#[trigger] records[i]).name@ == k {
            let i = choose|i: int| 0 <= i < records.len() && (#[trigger] records[i]).name@ == k;
            assert(t.0.contains_key(records[i].name@));
        }
    }
}

proof fn lemma_load_prefix(format: SheetFormat, records: Seq<FrameRecord>, slots: Seq<usize>, n: nat)
    requires
        n <= records.len(),
        slots.len() == records.len(),
        forall|i: int| 0 <= i < slots.len() ==> slots[i] == i,
        forall|i: int, j: int| 0 <= i < j < records.len() ==> (#[trigger] records[i]).name@ != (#[trigger] records[j]).name@,
        forall|i: int| 0 <= i < records.len() ==> (#[trigger] records[i]).in_range(),
    ensures
        build_table(format, records, slots, n) is Some,
        ({
            let t = build_table(format, records, slots, n)->0;
            &&& t.0.dom().finite()
            &&& t.0.dom().len() == n
            &&& t.1.len() == n
            &&& forall|k: Seq<char>| #[trigger] t.0.contains_key(k) ==> exists|i: int|
                0 <= i < n && (#[trigger] records[i]).name@ == k
        }),
        forall|i: int|
            0 <= i < n ==> {
                let t = build_table(format, records, slots, n)->0;
                &&& t.0.contains_key((#[trigger] records[i]).name@)
                &&& t.0[records[i].name@] == i
                &&& t.1[i] == frame_offset_spec(format, records[i])
            },
    decreases n,
{
    if n > 0 {
        let m = (n - 1) as nat;
        lemma_load_prefix(format, records, slots, m);
        let t = build_table(format, records, slots, m)->0;
        let key = records[m as int].name@;
        assert(!t.0.contains_key(key)) by {
            if t.0.contains_key(key) {
                let i = choose|i: int| 0 <= i < m && (#[trigger] records[i]).name@ == key;
                assert(records[i].name@ != records[m as int].name@);
            }
        }
        assert(t.0.insert(key, slots[m as int]).dom() =~= t.0.dom().insert(key));
        let t2 = build_table(format, records, slots, n)->0;
        assert forall|i: int| 0 <= i < n implies {
            &&& t2.0.contains_key((#[trigger] records[i]).name@)
            &&& t2.0[records[i].name@] == i
            &&& t2.1[i] == frame_offset_spec(format, records[i])
        } by {
            if i < m {
                assert(records[i].name@ != records[m as int].name@);
            }
        }
        assert forall|k: Seq<char>| #[trigger] t2.0.contains_key(k) implies exists|i: int|
            0 <= i < n && (#[trigger] records[i]).name@ == k by {
            if k != key {
                assert(t.0.contains_key(k));
                let i = choose|i: int| 0 <= i < m && (#[trigger] records[i]).name@ == k;
                assert(records[i].name@ == k);
            } else {
                assert(records[m as int].name@ == k);
            }
        }
    }
}

/// Registering by an explicit list of names that is sorted and holds exactly
/// the table's names with a given prefix yields the same frame sequence as
/// registering by that prefix, and registration never changes the table.
pub proof fn lemma_names_agree_with_prefix(
    s: SpriteModel,
    name: Seq<char>,
    names: Seq<Seq<char>>,
    prefix: Seq<char>,
    fps: u8,
    looped: bool,
    pivot: crate::offset::Offset,
)
    requires
        strictly_sorted(names),
        forall|k: Seq<char>| #[trigger] names.contains(k) <==> (s.frames.contains_key(k) && has_prefix(k, prefix)),
    ensures
        resolve(s.frames, names) == resolve(s.frames, sorted_names_with_prefix(s.frames, prefix)),
        s.register(name, names, fps, looped, pivot).frames == s.frames,
        s.register(name, names, fps, looped, pivot) == s.register(
            name,
            sorted_names_with_prefix(s.frames, prefix),
            fps,
            looped,
            pivot,
        ),
{
    lemma_sorted_unique(names, sorted_names_with_prefix(s.frames, prefix));
}

/// Playing the same animation twice without forcing, with nothing in
/// between, changes nothing the second time.
pub proof fn lemma_play_idempotent(s: SpriteModel, shown: usize, name: Seq<char>)
    requires
        s.wf(),
    ensures
        ({
            let first = s.play(shown, name, false);
            let second = first.0.play(first.1, name, false);
            &&& second.0 == first.0
            &&& second.1 == first.1
            &&& !(second.2 is Started)
        }),
{
    let first = s.play(shown, name, false);
    match find_animation(s.animations, name) {
        None => {},
        Some(i) => {
            if first.2 is Started {
                let t = first.0;
                assert(t.animations[i].name == name);
                assert(0 <= i < t.animations.len());
                assert(find_animation(t.animations, name) is Some);
            }
        },
    }
}

/// Registering with names that the frame table does not hold fails and
/// leaves the sprite, including its active animation, as it was.
pub proof fn lemma_unresolved_registration(
    s: SpriteModel,
    name: Seq<char>,
    names: Seq<Seq<char>>,
    fps: u8,
    looped: bool,
    pivot: crate::offset::Offset,
)
    requires
        forall|i: int| 0 <= i < names.len() ==> !s.frames.contains_key(#[trigger] names[i]),
    ensures
        resolve(s.frames, names).len() == 0,
        s.register(name, names, fps, looped, pivot) == s,
    decreases names.len(),
{
    if names.len() > 0 {
        lemma_unresolved_registration(s, name, names.drop_last(), fps, looped, pivot);
        assert(!s.frames.contains_key(names[names.len() - 1]));
    }
}

/// A three-frame animation that does not loop, started from any state, shows
/// its frames in order over two advances; the third advance marks it finished
/// and it keeps showing its last frame.
pub proof fn lemma_one_shot_stops_on_last_frame(s: SpriteModel, shown: usize, name: Seq<char>)
    requires
        s.wf(),
        find_animation(s.animations, name) is Some,
        s.animations[find_animation(s.animations, name)->0].frames.len() == 3,
        !s.animations[find_animation(s.animations, name)->0].looped,
    ensures
        ({
            let i = find_animation(s.animations, name)->0;
            let frames = s.animations[i].frames;
            let p = s.play(shown, name, true);
            let a1 = p.0.advance(p.1);
            let a2 = a1.0.advance(a1.1);
            let a3 = a2.0.advance(a2.1);
            &&& p.1 == frames[0] && !p.0.finished
            &&& a1.1 == frames[1] && !a1.0.finished
            &&& a2.1 == frames[2] && !a2.0.finished
            &&& a2.0.animations[i].cursor == 2
            &&& a3.0.finished
            &&& a3.1 == frames[2]
        }),
{
}

/// A three-frame looping animation, started from any state, is back on its
/// first frame after three advances, with the same correction in force as
/// right after it started.
pub proof fn lemma_loop_wraps_around(s: SpriteModel, shown: usize, name: Seq<char>)
    requires
        s.wf(),
        find_animation(s.animations, name) is Some,
        s.animations[find_animation(s.animations, name)->0].frames.len() == 3,
        s.animations[find_animation(s.animations, name)->0].looped,
    ensures
        ({
            let i = find_animation(s.animations, name)->0;
            let p = s.play(shown, name, true);
            let a1 = p.0.advance(p.1);
            let a2 = a1.0.advance(a1.1);
            let a3 = a2.0.advance(a2.1);
            &&& a3.0.animations[i].cursor == 0
            &&& a3.1 == s.animations[i].frames[0]
            &&& a3.1 == p.1
            &&& a3.0.applied(a3.1) == p.0.applied(p.1)
        }),
{
}

/// Re-registering an animation never changes which animation is playing:
/// the active animation keeps its name, and unless it is the one replaced it
/// keeps all of its state.
pub proof fn lemma_registration_keeps_active(
    s: SpriteModel,
    name: Seq<char>,
    names: Seq<Seq<char>>,
    fps: u8,
    looped: bool,
    pivot: crate::offset::Offset,
)
    requires
        s.wf(),
        s.active is Some,
    ensures
        ({
            let t = s.register(name, names, fps, looped, pivot);
            let old_active = s.animations[s.active->0 as int];
            &&& t.active is Some
            &&& t.animations[t.active->0 as int].name == old_active.name
            &&& old_active.name != name ==> t.animations[t.active->0 as int] == old_active
            &&& (old_active.name == name && resolve(s.frames, names).len() > 0) ==> {
                &&& t.animations[t.active->0 as int].frames == resolve(s.frames, names)
                &&& t.animations[t.active->0 as int].pivot == pivot
            }
        }),
{
    let a = s.active->0 as int;
    if resolve(s.frames, names).len() > 0 {
        let t = s.register(name, names, fps, looped, pivot);
        match find_animation(s.animations, name) {
            Some(i) => {
                let kept = s.animations.remove(i);
                if i == a {
                } else if i < a {
                    assert(kept[a - 1] == s.animations[a]);
                    assert(t.animations[a - 1] == kept[a - 1]);
                } else {
                    assert(kept[a] == s.animations[a]);
                    assert(t.animations[a] == kept[a]);
                }
            },
            None => {
                assert(t.animations[a] == s.animations[a]);
            },
        }
    }
}

/// A call of the playback interface.
pub enum Command {
    Play { name: Seq<char>, forced: bool },
    Advance,
}

/// Sprite and sprite index after one command.
pub open spec fn after_command(s: SpriteModel, shown: usize, c: Command) -> (SpriteModel, usize) {
    match c {
        Command::Play { name, forced } => {
            let r = s.play(shown, name, forced);
            (r.0, r.1)
        },
        Command::Advance => s.advance(shown),
    }
}

/// Sprite and sprite index after a sequence of commands.
pub open spec fn run(s: SpriteModel, shown: usize, cmds: Seq<Command>) -> (SpriteModel, usize)
    decreases cmds.len(),
{
    if cmds.len() == 0 {
        (s, shown)
    } else {
        let mid = run(s, shown, cmds.drop_last());
        after_command(mid.0, mid.1, cmds.last())
    }
}

/// Sum of the shifts the host is handed over a sequence of commands: each
/// call returns the change of correction it made.
pub open spec fn total_shift(s: SpriteModel, shown: usize, cmds: Seq<Command>) -> Placement
    decreases cmds.len(),
{
    if cmds.len() == 0 {
        no_placement()
    } else {
        let mid = run(s, shown, cmds.drop_last());
        let end = after_command(mid.0, mid.1, cmds.last());
        add_placement(total_shift(s, shown, cmds.drop_last()), sub_placement(end.0.applied(end.1), mid.0.applied(mid.1)))
    }
}

/// Over any sequence of plays and advances starting with no active
/// animation, the shifts handed out add up exactly to the shown frame's
/// offset plus the active animation's pivot: removals and applications never
/// drift apart.
///
/// `total_shift` sums, step by step, the change of `applied`; that each call
/// hands out exactly that change is the shift clause in the `ensures` of
/// `play_animation`, `next_frame` and `update_frame` (and of registration,
/// whose shift leaves `applied` balanced for every shown slot).
pub proof fn lemma_offsets_never_drift(s: SpriteModel, shown: usize, cmds: Seq<Command>)
    requires
        s.active is None,
    ensures
        total_shift(s, shown, cmds) == run(s, shown, cmds).0.applied(run(s, shown, cmds).1),
    decreases cmds.len(),
{
    if cmds.len() > 0 {
        lemma_offsets_never_drift(s, shown, cmds.drop_last());
    }
}

} // verus!
