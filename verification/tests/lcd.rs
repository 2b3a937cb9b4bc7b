use stm32u083c_dk::drivers::lcd::{
    digit_seg_map, display_digits, display_frame, display_ms_writes, seven_seg_pattern,
    single_segment_writes, ComWrite, LcdMessage,
};

fn writes_of(frame: [u64; 4]) -> Vec<ComWrite> {
    (0..4u8)
        .map(|com| ComWrite { com, segments: frame[com as usize] })
        .collect()
}

#[test]
fn digits_are_right_justified_with_leading_blanks() {
    assert_eq!(display_digits(0), [10, 10, 10, 0]);
    assert_eq!(display_digits(7), [10, 10, 10, 7]);
    assert_eq!(display_digits(42), [10, 10, 4, 2]);
    assert_eq!(display_digits(100), [10, 1, 0, 0]);
    assert_eq!(display_digits(1234), [1, 2, 3, 4]);
}

#[test]
fn values_above_9999_are_clamped() {
    assert_eq!(display_digits(9999), [9, 9, 9, 9]);
    assert_eq!(display_digits(10000), [9, 9, 9, 9]);
    assert_eq!(display_digits(u32::MAX), [9, 9, 9, 9]);
    assert_eq!(display_frame(10000), display_frame(9999));
    assert_eq!(display_frame(u32::MAX), display_frame(9999));
}

#[test]
fn seven_segment_patterns() {
    assert_eq!(seven_seg_pattern(0), 0b0111111);
    assert_eq!(seven_seg_pattern(1), 0b0000110);
    assert_eq!(seven_seg_pattern(8), 0b1111111);
    assert_eq!(seven_seg_pattern(10), 0);
}

#[test]
fn glass_mapping_table() {
    assert_eq!(digit_seg_map(0, 0), (0, 0));
    assert_eq!(digit_seg_map(0, 4), (2, 0));
    assert_eq!(digit_seg_map(1, 5), (0, 5));
    assert_eq!(digit_seg_map(3, 1), (0, 10));
    assert_eq!(digit_seg_map(3, 6), (1, 11));
}

#[test]
fn frames_for_sample_values() {
    assert_eq!(display_frame(0), [0xe00, 0x600, 0x8, 0x0]);
    assert_eq!(display_frame(7), [0x600, 0x200, 0x0, 0x0]);
    assert_eq!(display_frame(42), [0x780, 0xd40, 0x8, 0x0]);
    assert_eq!(display_frame(100), [0xfd0, 0x6c8, 0xc, 0x0]);
    assert_eq!(display_frame(1234), [0xcda, 0xbf1, 0x2, 0x0]);
    assert_eq!(display_frame(8888), [0xfff, 0xfff, 0xf, 0x0]);
}

#[test]
fn display_writes_push_the_frame_com_by_com() {
    for ms in [0u32, 7, 42, 1234, 9999, 50000] {
        assert_eq!(display_ms_writes(ms), writes_of(display_frame(ms)));
    }
}

#[test]
fn single_segment_clears_then_lights_one() {
    let w = single_segment_writes(2, 1 << 5);
    assert_eq!(
        w,
        vec![
            ComWrite { com: 0, segments: 0 },
            ComWrite { com: 1, segments: 0 },
            ComWrite { com: 2, segments: 0 },
            ComWrite { com: 3, segments: 0 },
            ComWrite { com: 2, segments: 1 << 5 },
        ]
    );
}

#[test]
fn text_message_keeps_text_and_duration() {
    assert_eq!(
        LcdMessage::text("Hi!", 200),
        LcdMessage::Text { text: String::from("Hi!"), duration_ms: 200 }
    );
}

#[test]
fn every_value_up_to_9999_has_its_own_frame() {
    let mut frames: Vec<[u64; 4]> = (0..=9999u32).map(display_frame).collect();
    frames.sort();
    frames.dedup();
    assert_eq!(frames.len(), 10000);
}
