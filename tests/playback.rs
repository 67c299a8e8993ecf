use sprite_flipbook::frame_table::{starts_with, str_less};
use sprite_flipbook::{AnimatedSprite, FrameRecord, FrameTimer, Offset, OffsetShift, PlayOutcome, SheetFormat};

fn sheet() -> AnimatedSprite {
    let records = vec![
        FrameRecord::texture_packer("walk_02".to_string(), 0, 0, 8, 8, false, 2, 0),
        FrameRecord::texture_packer("walk_00".to_string(), 8, 0, 8, 8, false, 0, 4),
        FrameRecord::texture_packer("walk_01".to_string(), 16, 0, 8, 8, true, 6, 2),
        FrameRecord::texture_packer("jump_00".to_string(), 24, 0, 8, 8, false, 10, 10),
        FrameRecord::texture_packer("jump_01".to_string(), 32, 0, 8, 8, false, 12, 8),
    ];
    let slots: Vec<usize> = (0..records.len()).collect();
    AnimatedSprite::from_frame_records(SheetFormat::JsonArray, &records, &slots).unwrap()
}

fn names(list: &[&str]) -> Vec<String> {
    list.iter().map(|s| s.to_string()).collect()
}

fn indices_of(sprite: &AnimatedSprite, name: &str) -> Vec<usize> {
    sprite.animations.iter().find(|a| a.name == name).unwrap().indices.clone()
}

#[derive(Default, Debug, PartialEq)]
struct Applied {
    x: i64,
    y: i64,
    turns: i64,
}

impl Applied {
    fn add(&mut self, s: OffsetShift) {
        self.x += s.dx;
        self.y += s.dy;
        self.turns += s.quarter_turns;
    }
}

fn expected(sprite: &AnimatedSprite, shown: usize) -> Applied {
    match sprite.current_animation_index {
        None => Applied::default(),
        Some(a) => {
            let f = sprite.frame_offsets[shown];
            let p = sprite.animations[a].offset;
            Applied { x: f.position.x + p.x, y: f.position.y + p.y, turns: if f.rotated { 1 } else { 0 } }
        }
    }
}

fn started(o: PlayOutcome) -> OffsetShift {
    match o {
        PlayOutcome::Started(s) => s,
        other => panic!("expected a start, got {:?}", other),
    }
}

#[test]
fn names_and_prefix_give_same_sequence() {
    let mut sprite = sheet();
    assert!(sprite.add_animation_by_frames("walk", names(&["walk_00", "walk_01", "walk_02"]), 10, true, Offset::new(0, 0)).is_some());
    let by_names = indices_of(&sprite, "walk");
    assert!(sprite.add_animation_by_prefix("walk", "walk_", 10, true, Offset::new(0, 0)).is_some());
    assert_eq!(indices_of(&sprite, "walk"), by_names);
    assert_eq!(by_names, vec![1, 2, 0]);
    assert_eq!(sprite.animations.len(), 1);
}

#[test]
fn prefix_selects_and_sorts() {
    let mut sprite = sheet();
    assert!(sprite.add_animation_by_prefix("jump", "jump", 12, false, Offset::new(0, 0)).is_some());
    assert_eq!(indices_of(&sprite, "jump"), vec![3, 4]);
    assert!(sprite.add_animation_by_prefix("none", "swim", 12, false, Offset::new(0, 0)).is_none());
    assert!(sprite.animations.iter().all(|a| a.name != "none"));
    let all = sprite.frames.names_with_prefix("");
    assert_eq!(all, names(&["jump_00", "jump_01", "walk_00", "walk_01", "walk_02"]));
}

#[test]
fn unknown_frames_are_skipped() {
    let mut sprite = sheet();
    assert!(sprite.add_animation_by_frames("mix", names(&["walk_01", "typo", "jump_00"]), 8, true, Offset::new(0, 0)).is_some());
    assert_eq!(indices_of(&sprite, "mix"), vec![2, 3]);
}

#[test]
fn registration_with_only_unknown_frames_fails_and_keeps_playback() {
    let mut sprite = sheet();
    let mut shown: usize = 0;
    sprite.add_animation_by_prefix("walk", "walk_", 10, true, Offset::new(2, 2));
    started(sprite.play_animation("walk", false, &mut shown));
    let active = sprite.current_animation_index;
    let before = sprite.current_animation();
    assert!(sprite.add_animation_by_frames("walk", names(&["wlak_00", "wlak_01"]), 10, true, Offset::new(0, 0)).is_none());
    assert!(sprite.add_animation_by_frames("other", Vec::new(), 10, true, Offset::new(0, 0)).is_none());
    assert_eq!(sprite.current_animation_index, active);
    assert_eq!(sprite.animations.len(), 1);
    let after = sprite.current_animation();
    assert_eq!(after.name, before.name);
    assert_eq!(after.indices, before.indices);
    assert_eq!(after.offset, before.offset);
    assert_eq!(shown, 1);
}

#[test]
fn re_registering_moves_animation_to_the_end() {
    let mut sprite = sheet();
    sprite.add_animation_by_prefix("walk", "walk_", 10, true, Offset::new(0, 0));
    sprite.add_animation_by_prefix("jump", "jump_", 10, true, Offset::new(0, 0));
    sprite.add_animation_by_frames("walk", names(&["walk_02"]), 5, false, Offset::new(0, 0));
    let order: Vec<&str> = sprite.animations.iter().map(|a| a.name.as_str()).collect();
    assert_eq!(order, vec!["jump", "walk"]);
    assert_eq!(sprite.animations[1].indices, vec![0]);
    assert_eq!(sprite.animations[1].fps, 5);
}

#[test]
fn playing_twice_without_force_changes_nothing() {
    let mut sprite = sheet();
    let mut shown: usize = 0;
    sprite.add_animation_by_prefix("walk", "walk_", 10, true, Offset::new(3, -1));
    started(sprite.play_animation("walk", false, &mut shown));
    let cursor = sprite.current_animation().current_index;
    let index = shown;
    assert_eq!(sprite.play_animation("walk", false, &mut shown), PlayOutcome::AlreadyPlaying);
    assert_eq!(shown, index);
    assert_eq!(sprite.current_animation().current_index, cursor);
}

#[test]
fn forced_replay_restarts_and_balances() {
    let mut sprite = sheet();
    let mut shown: usize = 0;
    let mut applied = Applied::default();
    sprite.add_animation_by_prefix("walk", "walk_", 10, true, Offset::new(3, -1));
    applied.add(started(sprite.play_animation("walk", false, &mut shown)));
    applied.add(sprite.next_frame(&mut shown));
    assert_eq!(sprite.current_animation().current_index, 1);
    applied.add(started(sprite.play_animation("walk", true, &mut shown)));
    assert_eq!(sprite.current_animation().current_index, 0);
    assert_eq!(shown, 1);
    assert_eq!(applied, expected(&sprite, shown));
}

#[test]
fn unknown_animation_is_a_no_op() {
    let mut sprite = sheet();
    let mut shown: usize = 4;
    assert_eq!(sprite.play_animation("fly", true, &mut shown), PlayOutcome::Unknown);
    assert_eq!(shown, 4);
    assert!(sprite.current_animation_index.is_none());
}

#[test]
fn non_looping_animation_finishes_on_last_frame() {
    let mut sprite = sheet();
    let mut shown: usize = 0;
    sprite.add_animation_by_frames("once", names(&["walk_00", "walk_01", "walk_02"]), 10, false, Offset::new(0, 0));
    started(sprite.play_animation("once", false, &mut shown));
    assert_eq!(shown, 1);
    sprite.next_frame(&mut shown);
    assert_eq!(shown, 2);
    assert!(!sprite.animation_is_finished);
    sprite.next_frame(&mut shown);
    assert_eq!(shown, 0);
    assert_eq!(sprite.current_animation().current_index, 2);
    assert!(!sprite.animation_is_finished);
    let shift = sprite.next_frame(&mut shown);
    assert!(sprite.animation_is_finished);
    assert_eq!(shown, 0);
    assert_eq!(shift, OffsetShift::none());
}

#[test]
fn looping_animation_wraps_to_first_frame() {
    let mut sprite = sheet();
    let mut shown: usize = 3;
    let mut applied = Applied::default();
    sprite.add_animation_by_frames("loop", names(&["walk_00", "walk_01", "walk_02"]), 10, true, Offset::new(-5, 7));
    applied.add(started(sprite.play_animation("loop", false, &mut shown)));
    let after_play = Applied { ..applied };
    let first = shown;
    for _ in 0..3 {
        applied.add(sprite.next_frame(&mut shown));
    }
    assert_eq!(sprite.current_animation().current_index, 0);
    assert_eq!(shown, first);
    assert_eq!(applied, after_play);
    assert!(!sprite.animation_is_finished);
}

#[test]
fn corrections_never_drift() {
    let mut sprite = sheet();
    let mut shown: usize = 0;
    let mut applied = Applied::default();
    sprite.add_animation_by_prefix("walk", "walk_", 10, true, Offset::new(3, -1));
    sprite.add_animation_by_prefix("jump", "jump_", 10, false, Offset::new(-8, 20));
    let plan: Vec<(Option<&str>, bool)> = vec![
        (Some("walk"), false),
        (None, false),
        (None, false),
        (Some("jump"), false),
        (None, false),
        (None, false),
        (Some("jump"), false),
        (Some("walk"), true),
        (None, false),
        (Some("walk"), true),
        (None, false),
        (None, false),
        (None, false),
        (Some("ghost"), true),
    ];
    for (step, forced) in plan {
        match step {
            Some(name) => {
                if let PlayOutcome::Started(s) = sprite.play_animation(name, forced, &mut shown) {
                    applied.add(s);
                }
            }
            None => {
                if !sprite.animation_is_finished {
                    applied.add(sprite.next_frame(&mut shown));
                }
            }
        }
        assert_eq!(applied, expected(&sprite, shown));
    }
}

#[test]
fn switching_removes_previous_pivot() {
    let mut sprite = sheet();
    let mut shown: usize = 0;
    sprite.add_animation_by_frames("a", names(&["walk_01"]), 10, true, Offset::new(100, 0));
    sprite.add_animation_by_frames("b", names(&["jump_00"]), 10, true, Offset::new(0, 0));
    let s1 = started(sprite.play_animation("a", false, &mut shown));
    // walk_01: spriteSourceSize (6, 2) -> (-6, -2) half pixels, rotated.
    assert_eq!(s1, OffsetShift { dx: 94, dy: -2, quarter_turns: 1 });
    let s2 = started(sprite.play_animation("b", false, &mut shown));
    // jump_00: (10, 10) -> (-10, -10), not rotated.
    assert_eq!(s2, OffsetShift { dx: -104, dy: -8, quarter_turns: -1 });
}

#[test]
fn timer_fires_once_per_period() {
    let mut sprite = sheet();
    let mut shown: usize = 0;
    sprite.add_animation_by_prefix("walk", "walk_", 10, true, Offset::new(0, 0));
    started(sprite.play_animation("walk", false, &mut shown));
    let period = 100_000_000u64;
    sprite.update_frame(&mut shown, period - 1);
    assert_eq!(sprite.current_animation().current_index, 0);
    sprite.update_frame(&mut shown, 1);
    assert_eq!(sprite.current_animation().current_index, 1);
    sprite.update_frame(&mut shown, 10 * period);
    assert_eq!(sprite.current_animation().current_index, 2);
    assert_eq!(sprite.current_animation().timer.elapsed_nanos, 0);
}

#[test]
fn paused_and_finished_sprites_do_not_advance() {
    let mut sprite = sheet();
    let mut shown: usize = 0;
    sprite.add_animation_by_frames("once", names(&["jump_00", "jump_01"]), 4, false, Offset::new(0, 0));
    started(sprite.play_animation("once", false, &mut shown));
    sprite.pause();
    assert!(sprite.animation_is_paused);
    assert_eq!(sprite.update_frame(&mut shown, u64::MAX), OffsetShift::none());
    assert_eq!(sprite.current_animation().current_index, 0);
    sprite.resume();
    assert!(!sprite.animation_is_paused);
    sprite.update_frame(&mut shown, u64::MAX);
    assert_eq!(shown, 4);
    sprite.update_frame(&mut shown, u64::MAX);
    assert!(sprite.animation_is_finished);
    assert_eq!(sprite.update_frame(&mut shown, u64::MAX), OffsetShift::none());
    assert_eq!(shown, 4);
}

#[test]
fn idle_sprite_reports_empty_animation() {
    let mut sprite = sheet();
    let mut shown: usize = 0;
    let none = sprite.current_animation();
    assert_eq!(none.name, "");
    assert!(none.indices.is_empty());
    assert_eq!(none.fps, 0);
    assert_eq!(sprite.update_frame(&mut shown, 1_000_000_000), OffsetShift::none());
}

#[test]
fn timer_period_and_once_mode() {
    let mut t = FrameTimer::from_fps(30);
    assert_eq!(t.duration_nanos, 33_333_333);
    assert!(!t.tick(33_333_332));
    assert!(t.tick(5));
    assert_eq!(t.elapsed_nanos, 33_333_333);
    assert!(!t.tick(1));
    t.reset();
    assert_eq!(t.elapsed_nanos, 0);
    assert!(!t.just_finished);
}

#[test]
fn string_order_helpers() {
    assert!(str_less("walk_00", "walk_01"));
    assert!(!str_less("walk_01", "walk_00"));
    assert!(str_less("walk", "walk_00"));
    assert!(!str_less("same", "same"));
    assert!(str_less("Z", "a"));
    assert!(starts_with("walk_00", "walk"));
    assert!(starts_with("walk", ""));
    assert!(!starts_with("wal", "walk"));
    assert!(!starts_with("jump_00", "walk"));
}

#[test]
fn re_registering_an_earlier_animation_keeps_the_active_one() {
    let mut sprite = sheet();
    let mut shown: usize = 0;
    let mut applied = Applied::default();
    sprite.add_animation_by_prefix("walk", "walk_", 10, true, Offset::new(1, 1));
    sprite.add_animation_by_prefix("jump", "jump_", 10, true, Offset::new(-8, 20));
    applied.add(started(sprite.play_animation("jump", false, &mut shown)));
    applied.add(sprite.next_frame(&mut shown));
    let shift = sprite.add_animation_by_frames("walk", names(&["walk_02"]), 5, false, Offset::new(9, 9)).unwrap();
    assert_eq!(shift, OffsetShift::none());
    let now = sprite.current_animation();
    assert_eq!(now.name, "jump");
    assert_eq!(now.indices, vec![3, 4]);
    assert_eq!(now.current_index, 1);
    assert_eq!(now.offset, Offset::new(-8, 20));
    assert_eq!(applied, expected(&sprite, shown));
    assert_eq!(sprite.play_animation("jump", false, &mut shown), PlayOutcome::AlreadyPlaying);
    applied.add(started(sprite.play_animation("walk", false, &mut shown)));
    assert_eq!(applied, expected(&sprite, shown));
}

#[test]
fn replacing_the_active_animation_swaps_its_pivot() {
    let mut sprite = sheet();
    let mut shown: usize = 0;
    let mut applied = Applied::default();
    sprite.add_animation_by_prefix("walk", "walk_", 10, true, Offset::new(4, -2));
    sprite.add_animation_by_prefix("jump", "jump_", 10, true, Offset::new(0, 0));
    applied.add(started(sprite.play_animation("walk", false, &mut shown)));
    applied.add(sprite.next_frame(&mut shown));
    let shift = sprite.add_animation_by_frames("walk", names(&["walk_02", "walk_00"]), 10, true, Offset::new(10, 3)).unwrap();
    assert_eq!(shift, OffsetShift { dx: 6, dy: 5, quarter_turns: 0 });
    applied.add(shift);
    let now = sprite.current_animation();
    assert_eq!(now.name, "walk");
    assert_eq!(now.indices, vec![0, 1]);
    assert_eq!(now.current_index, 0);
    assert_eq!(sprite.current_animation_index, Some(1));
    assert_eq!(applied, expected(&sprite, shown));
    applied.add(sprite.next_frame(&mut shown));
    assert_eq!(shown, 1);
    assert_eq!(applied, expected(&sprite, shown));
}
