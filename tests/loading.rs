use sprite_flipbook::{frame_offset, strip_byte_order_marks, AnimatedSprite, FrameRecord, SheetFormat};

fn sparrow_records() -> Vec<FrameRecord> {
    vec![
        FrameRecord::sparrow("idle_00".to_string(), 0, 0, 32, 32, -6, 4),
        FrameRecord::sparrow("idle_01".to_string(), 32, 0, 30, 32, 0, -2),
        FrameRecord::sparrow("idle_02".to_string(), 64, 0, 28, 32, 3, 0),
    ]
}

fn packer_records() -> Vec<FrameRecord> {
    vec![
        FrameRecord::texture_packer("run_00".to_string(), 0, 0, 32, 32, false, 4, 2),
        FrameRecord::texture_packer("run_01".to_string(), 32, 0, 32, 32, true, 0, 6),
        FrameRecord::texture_packer("run_02".to_string(), 64, 0, 32, 32, false, 1, 0),
    ]
}

fn load(format: SheetFormat, records: &Vec<FrameRecord>) -> AnimatedSprite {
    let slots: Vec<usize> = (0..records.len()).collect();
    AnimatedSprite::from_frame_records(format, records, &slots).expect("sheet loads")
}

#[test]
fn sparrow_sheet_has_one_entry_per_frame_with_positive_half_trim() {
    let records = sparrow_records();
    let sprite = load(SheetFormat::Sparrow, &records);
    assert_eq!(sprite.frames.entries.len(), 3);
    assert_eq!(sprite.frame_offsets.len(), 3);
    for (i, r) in records.iter().enumerate() {
        assert_eq!(sprite.frames.get(&r.name), Some(i));
    }
    // frameX = -6 px becomes -3 px, i.e. -6 half pixels.
    assert_eq!(sprite.frame_offsets[0].position.x, -6);
    assert_eq!(sprite.frame_offsets[0].position.y, 4);
    assert_eq!(sprite.frame_offsets[1].position.y, -2);
    assert!(!sprite.frame_offsets[2].rotated);
}

#[test]
fn json_formats_have_one_entry_per_frame_with_negative_half_trim() {
    for format in [SheetFormat::JsonHash, SheetFormat::JsonArray, SheetFormat::EdgeAnimate] {
        let records = packer_records();
        let sprite = load(format, &records);
        assert_eq!(sprite.frames.entries.len(), 3);
        assert_eq!(sprite.frame_offsets.len(), 3);
        // spriteSourceSize.x = 4 px becomes -2 px, i.e. -4 half pixels.
        assert_eq!(sprite.frame_offsets[0].position.x, -4);
        assert_eq!(sprite.frame_offsets[0].position.y, -2);
        assert_eq!(sprite.frame_offsets[1].position.y, -6);
        assert!(sprite.frame_offsets[1].rotated);
        assert!(!sprite.frame_offsets[2].rotated);
    }
}

#[test]
fn later_record_of_same_name_wins() {
    let records = vec![
        FrameRecord::sparrow("a".to_string(), 0, 0, 1, 1, 0, 0),
        FrameRecord::sparrow("a".to_string(), 1, 0, 1, 1, 2, 0),
    ];
    let sprite = load(SheetFormat::Sparrow, &records);
    assert_eq!(sprite.frames.entries.len(), 1);
    assert_eq!(sprite.frames.get(&"a".to_string()), Some(1));
    assert_eq!(sprite.frame_offsets.len(), 2);
}

#[test]
fn empty_sheet_loads_empty_table() {
    let sprite = load(SheetFormat::JsonHash, &Vec::new());
    assert_eq!(sprite.frames.entries.len(), 0);
    assert_eq!(sprite.frame_offsets.len(), 0);
    assert!(sprite.current_animation_index.is_none());
}

#[test]
fn mismatched_slot_list_is_rejected() {
    let records = sparrow_records();
    assert!(AnimatedSprite::from_frame_records(SheetFormat::Sparrow, &records, &vec![0, 1]).is_none());
}

#[test]
fn slot_past_the_end_is_rejected() {
    let records = sparrow_records();
    assert!(AnimatedSprite::from_frame_records(SheetFormat::Sparrow, &records, &vec![0, 2, 1]).is_none());
}

#[test]
fn frame_offset_follows_schema_sign() {
    let xml = FrameRecord::sparrow("f".to_string(), 0, 0, 1, 1, 7, -9);
    let off = frame_offset(SheetFormat::Sparrow, &xml);
    assert_eq!((off.position.x, off.position.y, off.rotated), (7, -9, false));
    let json = FrameRecord::texture_packer("f".to_string(), 0, 0, 1, 1, true, u32::MAX, 5);
    let off = frame_offset(SheetFormat::JsonArray, &json);
    assert_eq!((off.position.x, off.position.y, off.rotated), (-(u32::MAX as i64), -5, true));
}

#[test]
fn source_rect_spans_the_frame() {
    let r = FrameRecord::sparrow("f".to_string(), 10, 20, 30, 40, 0, 0);
    assert_eq!(r.source_rect(), (10, 20, 40, 60));
    let big = FrameRecord::sparrow("f".to_string(), u32::MAX, 0, u32::MAX, 1, 0, 0);
    assert_eq!(big.source_rect().2, 2 * (u32::MAX as u64));
}

#[test]
fn byte_order_marks_are_stripped() {
    assert_eq!(strip_byte_order_marks("\u{FEFF}<TextureAtlas/>"), "<TextureAtlas/>");
    assert_eq!(strip_byte_order_marks("\u{FEFF}\u{FEFF}{}"), "{}");
    assert_eq!(strip_byte_order_marks("{\u{FEFF}}"), "{\u{FEFF}}");
    assert_eq!(strip_byte_order_marks(""), "");
    assert_eq!(strip_byte_order_marks("\u{FEFF}"), "");
}
